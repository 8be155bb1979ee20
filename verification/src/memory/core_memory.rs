//! The blocks that an agent keeps in view and edits itself.
use vstd::prelude::*;

use crate::llm::provider::opt_view;
use crate::memory::error::{MemoryError, MemoryErrorV};
use crate::session::copy_opt;
use crate::table::Table;
use crate::text::{chars_of, concat, contains, find_chars, find_from, has, join, join_texts, lemma_find_from, same,
    text_between, trim, trimmed, views};
use crate::tools::paths::{joined, joined_path};

verus! {

// ---------------------------------------------------------------------------
// Blocks
// ---------------------------------------------------------------------------

/// A named block.
#[derive(Debug)]
pub struct MemoryBlock {
    pub label: String,
    pub value: String,
    /// The most characters that it holds; 0 means any number.
    pub limit: usize,
    /// What the block is for.
    pub description: Option<String>,
    /// The block is one that agents share.
    pub shared: bool,
}

pub struct BlockV {
    pub label: Seq<char>,
    pub value: Seq<char>,
    pub limit: usize,
    pub description: Option<Seq<char>>,
    pub shared: bool,
}

impl View for MemoryBlock {
    type V = BlockV;

    open spec fn view(&self) -> BlockV {
        BlockV {
            label: self.label@,
            value: self.value@,
            limit: self.limit,
            description: opt_view(self.description),
            shared: self.shared,
        }
    }
}

pub open spec fn block_views(v: Seq<MemoryBlock>) -> Seq<BlockV> {
    v.map_values(|b: MemoryBlock| b@)
}

impl BlockV {
    /// So many characters are within the limit.
    pub open spec fn fits(self, len: nat) -> bool {
        self.limit == 0 || len <= self.limit
    }

    /// The block with another value, unless that is over the limit.
    pub open spec fn with_value(self, value: Seq<char>) -> Result<BlockV, MemoryErrorV> {
        if self.fits(value.len()) {
            Ok(BlockV { value, ..self })
        } else {
            Err(
                MemoryErrorV::BlockOverLimit {
                    label: self.label,
                    limit: self.limit,
                    attempted: value.len() as usize,
                },
            )
        }
    }

    /// The value with a text behind it, on a line of its own.
    pub open spec fn appended(self, text: Seq<char>) -> Seq<char> {
        if self.value.len() == 0 {
            text
        } else {
            self.value + "\n"@ + text
        }
    }

    /// The value with the first occurrence of a text replaced.
    pub open spec fn replaced(self, old_text: Seq<char>, new_text: Seq<char>) -> Result<Seq<char>, MemoryErrorV> {
        match find_from(self.value, old_text, 0) {
            Some(i) => Ok(
                self.value.subrange(0, i) + new_text + self.value.subrange(
                    i + old_text.len(),
                    self.value.len() as int,
                ),
            ),
            None => Err(
                MemoryErrorV::Invalid("text to replace was not found in block '"@ + self.label + "'"@),
            ),
        }
    }

    /// The block as a section of a prompt.
    pub open spec fn rendered(self) -> Seq<char> {
        "### "@ + self.label + "\n"@ + if trim(self.value).len() == 0 {
            match self.description {
                Some(d) => "(empty — "@ + d + ")"@,
                None => "(empty)"@,
            }
        } else {
            self.value
        }
    }
}

/// The block became what is wanted, or stayed as it was with its error.
pub open spec fn edited(before: BlockV, after: BlockV, r: Result<(), MemoryError>, want: Result<BlockV, MemoryErrorV>) -> bool {
    match r {
        Ok(_) => want == Ok::<BlockV, MemoryErrorV>(after),
        Err(e) => want == Err::<BlockV, MemoryErrorV>(e@) && after == before,
    }
}

impl MemoryBlock {
    /// An empty block.
    pub fn new(label: &str, limit: usize) -> (r: MemoryBlock)
        ensures
            r@ == (BlockV { label: label@, value: Seq::empty(), limit, description: None, shared: false }),
    {
        MemoryBlock { label: label.to_owned(), value: String::new(), limit, description: None, shared: false }
    }

    /// A copy.
    pub fn copy(&self) -> (r: MemoryBlock)
        ensures
            r@ == self@,
    {
        MemoryBlock {
            label: self.label.clone(),
            value: self.value.clone(),
            limit: self.limit,
            description: copy_opt(&self.description),
            shared: self.shared,
        }
    }

    /// Puts another value in, unless it is over the limit.
    pub fn set(&mut self, value: &str) -> (r: Result<(), MemoryError>)
        ensures
            edited(old(self)@, final(self)@, r, old(self)@.with_value(value@)),
    {
        let n: usize = value.unicode_len();
        if self.limit == 0 || n <= self.limit {
            self.value = value.to_owned();
            Ok(())
        } else {
            Err(MemoryError::BlockOverLimit { label: self.label.clone(), limit: self.limit, attempted: n })
        }
    }

    /// Adds a text on a line of its own, unless that is over the limit.
    pub fn append(&mut self, text: &str) -> (r: Result<(), MemoryError>)
        ensures
            edited(old(self)@, final(self)@, r, old(self)@.with_value(old(self)@.appended(text@))),
    {
        if self.value.as_str().unicode_len() == 0 {
            self.set(text)
        } else {
            let head = concat(self.value.as_str(), "\n");
            let all = concat(head.as_str(), text);
            self.set(all.as_str())
        }
    }

    /// Replaces the first occurrence of a text, unless there is none or the
    /// value would be over the limit.
    pub fn replace(&mut self, old_text: &str, new_text: &str) -> (r: Result<(), MemoryError>)
        ensures
            edited(
                old(self)@,
                final(self)@,
                r,
                match old(self)@.replaced(old_text@, new_text@) {
                    Ok(v) => old(self)@.with_value(v),
                    Err(e) => Err(e),
                },
            ),
    {
        let v = chars_of(self.value.as_str());
        let p = chars_of(old_text);
        proof {
            lemma_find_from(v@, p@, 0);
        }
        match find_chars(&v, &p, 0) {
            Some(i) => {
                let head = concat(text_between(&v, 0, i).as_str(), new_text);
                let all = concat(head.as_str(), text_between(&v, i + p.len(), v.len()).as_str());
                self.set(all.as_str())
            },
            None => {
                let head = concat("text to replace was not found in block '", self.label.as_str());
                Err(MemoryError::Invalid(concat(head.as_str(), "'")))
            },
        }
    }

    /// The block as a section of a prompt.
    pub fn render(&self) -> (r: String)
        ensures
            r@ == self@.rendered(),
    {
        let head = concat("### ", self.label.as_str());
        let line = concat(head.as_str(), "\n");
        if trimmed(self.value.as_str()).as_str().unicode_len() == 0 {
            match &self.description {
                Some(d) => {
                    let open = concat("(empty — ", d.as_str());
                    concat(line.as_str(), concat(open.as_str(), ")").as_str())
                },
                None => concat(line.as_str(), "(empty)"),
            }
        } else {
            concat(line.as_str(), self.value.as_str())
        }
    }
}

/// The blocks as the part of a prompt; nothing where there are none.
pub open spec fn rendered_blocks(blocks: Seq<BlockV>) -> Seq<char> {
    if blocks.len() == 0 {
        Seq::empty()
    } else {
        "## Core Memory\n"@ + join(blocks.map_values(|b: BlockV| b.rendered()), "\n\n"@)
    }
}

/// The blocks as the part of a prompt.
pub fn render_blocks(blocks: &Vec<MemoryBlock>) -> (r: String)
    ensures
        r@ == rendered_blocks(block_views(blocks@)),
{
    if blocks.len() == 0 {
        return String::new();
    }
    let mut sections: Vec<String> = Vec::new();
    let mut i: usize = 0;
    while i < blocks.len()
        invariant
            i <= blocks@.len(),
            sections@.len() == i,
            forall|k: int| 0 <= k < i ==> (#[trigger] sections@[k])@ == blocks@[k]@.rendered(),
        decreases blocks@.len() - i,
    {
        sections.push(blocks[i].render());
        i += 1;
    }
    proof {
        assert(views(sections@) =~= block_views(blocks@).map_values(|b: BlockV| b.rendered()));
    }
    concat("## Core Memory\n", join_texts(&sections, "\n\n").as_str())
}

// ---------------------------------------------------------------------------
// The blocks of an agent
// ---------------------------------------------------------------------------

/// The position of the first block with a label, from `i` on.
pub open spec fn block_from(v: Seq<BlockV>, label: Seq<char>, i: int) -> Option<int>
    decreases v.len() - i,
{
    if i < 0 || i >= v.len() {
        None
    } else if v[i].label == label {
        Some(i)
    } else {
        block_from(v, label, i + 1)
    }
}

/// The blocks with another one, unless its label is taken.
pub open spec fn seeded(v: Seq<BlockV>, block: BlockV) -> Seq<BlockV> {
    if block_from(v, block.label, 0) is Some {
        v
    } else {
        v.push(block)
    }
}

/// The blocks with those of the given ones that are not shared.
pub open spec fn seeded_all(v: Seq<BlockV>, blocks: Seq<BlockV>) -> Seq<BlockV>
    decreases blocks.len(),
{
    if blocks.len() == 0 {
        v
    } else {
        let earlier = seeded_all(v, blocks.drop_last());
        if blocks.last().shared {
            earlier
        } else {
            seeded(earlier, blocks.last())
        }
    }
}

/// The blocks of one agent, in order.
#[derive(Debug)]
pub struct CoreMemoryStore {
    agent_id: String,
    path: String,
    blocks: Vec<MemoryBlock>,
}

impl CoreMemoryStore {
    /// The blocks.
    pub closed spec fn view(&self) -> Seq<BlockV> {
        block_views(self.blocks@)
    }

    /// Whose blocks they are.
    pub closed spec fn owner(&self) -> Seq<char> {
        self.agent_id@
    }

    /// Where they are kept.
    pub closed spec fn place(&self) -> Seq<char> {
        self.path@
    }

    /// No blocks yet.
    pub fn new(agent_id: &str, path: &str) -> (r: CoreMemoryStore)
        ensures
            r@ == Seq::<BlockV>::empty(),
            r.owner() == agent_id@,
            r.place() == path@,
    {
        let r = CoreMemoryStore { agent_id: agent_id.to_owned(), path: path.to_owned(), blocks: Vec::new() };
        proof {
            assert(r@ =~= Seq::<BlockV>::empty());
        }
        r
    }

    /// Whose blocks they are.
    pub fn agent_id(&self) -> (r: &str)
        ensures
            r@ == self.owner(),
    {
        self.agent_id.as_str()
    }

    /// Where they are kept.
    pub fn path(&self) -> (r: &str)
        ensures
            r@ == self.place(),
    {
        self.path.as_str()
    }

    /// Puts the blocks in that were kept.
    pub fn load(&mut self, blocks: Vec<MemoryBlock>)
        ensures
            final(self)@ == block_views(blocks@),
            final(self).owner() == old(self).owner(),
            final(self).place() == old(self).place(),
    {
        self.blocks = blocks;
    }

    fn position(&self, label: &str) -> (r: Option<usize>)
        ensures
            match r {
                Some(i) => block_from(self@, label@, 0) == Some(i as int) && i < self.blocks@.len(),
                None => block_from(self@, label@, 0) is None,
            },
    {
        let mut i: usize = 0;
        while i < self.blocks.len()
            invariant
                i <= self.blocks@.len(),
                block_from(self@, label@, 0) == block_from(self@, label@, i as int),
            decreases self.blocks@.len() - i,
        {
            proof {
                assert(self@[i as int] == self.blocks@[i as int]@);
            }
            if same(self.blocks[i].label.as_str(), label) {
                return Some(i);
            }
            i += 1;
        }
        None
    }

    /// Adds a block, unless its label is taken.
    pub fn ensure_block(&mut self, block: MemoryBlock)
        ensures
            final(self)@ == seeded(old(self)@, block@),
            final(self).owner() == old(self).owner(),
            final(self).place() == old(self).place(),
    {
        let ghost before = self@;
        if self.position(block.label.as_str()).is_none() {
            self.blocks.push(block);
            proof {
                assert(self@ =~= before.push(block@));
            }
        }
    }

    /// The first block with a label.
    pub fn block(&self, label: &str) -> (r: Option<&MemoryBlock>)
        ensures
            match r {
                Some(b) => block_from(self@, label@, 0) matches Some(i) && b@ == self@[i],
                None => block_from(self@, label@, 0) is None,
            },
    {
        match self.position(label) {
            Some(i) => Some(&self.blocks[i]),
            None => None,
        }
    }

    /// The first block with a label, to be edited.
    pub fn block_mut(&mut self, label: &str) -> (r: Option<&mut MemoryBlock>)
        ensures
            match r {
                Some(b) => block_from(old(self)@, label@, 0) matches Some(i) && b@ == old(self)@[i] && final(self)@
                    == old(self)@.update(i, final(b)@),
                None => block_from(old(self)@, label@, 0) is None && final(self)@ == old(self)@,
            },
            final(self).owner() == old(self).owner(),
            final(self).place() == old(self).place(),
    {
        match self.position(label) {
            Some(i) => {
                let b = &mut self.blocks[i];
                Some(b)
            },
            None => None,
        }
    }

    /// All blocks, in order.
    pub fn blocks(&self) -> (r: &Vec<MemoryBlock>)
        ensures
            block_views(r@) == self@,
    {
        &self.blocks
    }

    /// The blocks as the part of a prompt.
    pub fn as_context_string(&self) -> (r: String)
        ensures
            r@ == rendered_blocks(self@),
    {
        render_blocks(&self.blocks)
    }
}

/// The blocks of an agent: those that were kept, and those of the given ones
/// that are neither there nor shared.
pub fn build_store(agent_id: &str, path: &str, kept: Option<Vec<MemoryBlock>>, specs: &Vec<MemoryBlock>) -> (r:
    CoreMemoryStore)
    ensures
        r.owner() == agent_id@,
        r.place() == path@,
        r@ == seeded_all(
            match kept {
                Some(k) => block_views(k@),
                None => Seq::empty(),
            },
            block_views(specs@),
        ),
{
    let mut store = CoreMemoryStore::new(agent_id, path);
    match kept {
        Some(k) => {
            store.load(k);
        },
        None => {},
    }
    let ghost start = store@;
    let ghost all = block_views(specs@);
    let mut i: usize = 0;
    proof {
        assert(all.take(0).len() == 0);
    }
    while i < specs.len()
        invariant
            i <= specs@.len(),
            all == block_views(specs@),
            store@ == seeded_all(start, all.take(i as int)),
            store.owner() == agent_id@,
            store.place() == path@,
        decreases specs@.len() - i,
    {
        proof {
            assert(all.take(i + 1).drop_last() =~= all.take(i as int));
            assert(all.take(i + 1).last() == specs@[i as int]@);
        }
        if !specs[i].shared {
            store.ensure_block(specs[i].copy());
        }
        i += 1;
    }
    proof {
        assert(all.take(all.len() as int) =~= all);
    }
    store
}

// ---------------------------------------------------------------------------
// Blocks that agents share
// ---------------------------------------------------------------------------

/// The shared blocks by their labels: one for each label, however many agents
/// name it.
pub struct SharedBlockRegistry {
    dir: String,
    blocks: Table<MemoryBlock>,
}

impl SharedBlockRegistry {
    /// The blocks by their labels.
    pub closed spec fn view(&self) -> Map<Seq<char>, BlockV> {
        self.blocks@.map_values(|b: MemoryBlock| b@)
    }

    /// Where the blocks are kept.
    pub closed spec fn place(&self) -> Seq<char> {
        self.dir@
    }

    /// No blocks yet.
    pub fn new(dir: &str) -> (r: SharedBlockRegistry)
        ensures
            r@ == Map::<Seq<char>, BlockV>::empty(),
            r.place() == dir@,
    {
        let r = SharedBlockRegistry { dir: dir.to_owned(), blocks: Table::new() };
        proof {
            assert(r@ =~= Map::<Seq<char>, BlockV>::empty());
        }
        r
    }

    /// Where the block of a label is kept.
    pub fn block_path(&self, label: &str) -> (r: String)
        ensures
            r@ == joined(self.place(), label@ + ".json"@),
    {
        joined_path(self.dir.as_str(), concat(label, ".json").as_str())
    }

    /// Registers a block: a label that is known keeps its block; else the kept
    /// block is taken, or the given one where none is.
    pub fn ensure(&mut self, default: MemoryBlock, kept: Option<MemoryBlock>)
        ensures
            final(self)@ == if old(self)@.dom().contains(default@.label) {
                old(self)@
            } else {
                old(self)@.insert(
                    default@.label,
                    match kept {
                        Some(b) => b@,
                        None => default@,
                    },
                )
            },
            final(self).place() == old(self).place(),
    {
        let ghost before = self@;
        if self.blocks.has(default.label.as_str()) {
            return ;
        }
        let label = default.label.clone();
        let block = match kept {
            Some(b) => b,
            None => default,
        };
        self.blocks.insert(label, block);
        proof {
            assert(self@ =~= before.insert(label@, block@));
        }
    }

    /// The block of a label.
    pub fn get(&self, label: &str) -> (r: Option<&MemoryBlock>)
        ensures
            match r {
                Some(b) => self@.dom().contains(label@) && b@ == self@[label@],
                None => !self@.dom().contains(label@),
            },
    {
        self.blocks.get(label)
    }

    /// Puts the block of a known label back after an edit.
    pub fn put(&mut self, label: &str, block: MemoryBlock)
        requires
            old(self)@.dom().contains(label@),
        ensures
            final(self)@ == old(self)@.insert(label@, block@),
            final(self).place() == old(self).place(),
    {
        let ghost before = self@;
        self.blocks.replace(label, block);
        proof {
            assert(self@ =~= before.insert(label@, block@));
        }
    }
}

/// Where the blocks of an agent are kept.
pub fn core_store_path(data_dir: &str, agent_id: &str) -> (r: String)
    ensures
        r@ == joined(data_dir@, "memory/core/agent_"@ + agent_id@ + ".json"@),
{
    let head = concat("memory/core/agent_", agent_id);
    joined_path(data_dir, concat(head.as_str(), ".json").as_str())
}

/// Where shared blocks are kept.
pub fn shared_blocks_dir(data_dir: &str) -> (r: String)
    ensures
        r@ == joined(data_dir@, "memory/core/shared"@),
{
    joined_path(data_dir, "memory/core/shared")
}

// ---------------------------------------------------------------------------
// Laws
// ---------------------------------------------------------------------------

/// No edit takes a block over its limit: one that is within it stays so.
pub proof fn law_edits_respect_the_limit(b: BlockV, value: Seq<char>)
    requires
        b.fits(b.value.len()),
    ensures
        match b.with_value(value) {
            Ok(after) => after.fits(after.value.len()) && after.limit == b.limit && after.label == b.label,
            Err(_) => b.limit > 0 && value.len() > b.limit,
        },
{
}

/// Seeding a store again changes nothing: what an agent has made of a block is
/// never overwritten by its default.
pub proof fn law_seeding_never_overwrites(v: Seq<BlockV>, block: BlockV, label: Seq<char>)
    requires
        block_from(v, label, 0) is Some,
    ensures
        block_from(seeded(v, block), label, 0) == block_from(v, label, 0),
        seeded(v, block)[block_from(v, label, 0)->0] == v[block_from(v, label, 0)->0],
        seeded(seeded(v, block), block) == seeded(v, block),
{
    lemma_block_from_push(v, block, label, 0);
    lemma_block_from(v, label, 0);
    if block_from(v, block.label, 0) is None {
        lemma_block_from_push(v, block, block.label, 0);
    }
}

proof fn lemma_block_from(v: Seq<BlockV>, label: Seq<char>, i: int)
    requires
        0 <= i,
    ensures
        block_from(v, label, i) matches Some(p) ==> i <= p < v.len() && v[p].label == label,
    decreases v.len() - i,
{
    if i < v.len() && v[i].label != label {
        lemma_block_from(v, label, i + 1);
    }
}

proof fn lemma_block_from_push(v: Seq<BlockV>, block: BlockV, label: Seq<char>, i: int)
    requires
        0 <= i <= v.len(),
    ensures
        block_from(v, label, i) is Some ==> block_from(v.push(block), label, i) == block_from(v, label, i),
        block_from(v, label, i) is None && block.label == label ==> block_from(v.push(block), label, i) == Some(
            v.len() as int,
        ),
    decreases v.len() - i,
{
    if i < v.len() {
        assert(v.push(block)[i] == v[i]);
        if v[i].label != label {
            lemma_block_from_push(v, block, label, i + 1);
        }
    } else {
        assert(v.push(block)[i] == block);
    }
}

/// A replacement is made exactly where the text occurs, and of one occurrence.
pub proof fn law_replace_changes_the_first_occurrence(b: BlockV, old_text: Seq<char>, new_text: Seq<char>)
    ensures
        b.replaced(old_text, new_text) is Ok <==> contains(b.value, old_text),
        b.replaced(old_text, new_text) matches Ok(v) ==> v.len() == b.value.len() - old_text.len() + new_text.len(),
{
    lemma_find_from(b.value, old_text, 0);
}

} // verus!
