//! Conversation context: messages, token accounting, trimming and compaction.
//!
//! Token counts are produced by a tokenizer outside this crate, so every text
//! that counts towards the budget travels with its count ([`Counted`]).
use vstd::prelude::*;

use crate::search::{has_prefix, join, join_strs, starts_with};
use crate::text::{blank, cat2, is_blank, oview, str_eq, trimmed, views};

verus! {

/// Every compaction marker starts with this text.
pub const COMPACTION_MARKER_PREFIX: &'static str = "[CONTEXT COMPACTION";

/// Tokens an image is taken to cost.
pub const IMAGE_TOKENS: usize = 1000;

/// Tokens the structure of a message costs.
pub const MESSAGE_OVERHEAD: usize = 4;

// ------------------------------------------------------------------- types
/// A text and the number of tokens it holds.
pub struct Counted {
    pub text: String,
    pub tokens: usize,
}

pub struct CountedV {
    pub text: Seq<char>,
    pub tokens: nat,
}

impl View for Counted {
    type V = CountedV;

    open spec fn view(&self) -> CountedV {
        CountedV { text: self.text@, tokens: self.tokens as nat }
    }
}

impl Counted {
    fn dup(&self) -> (r: Self)
        ensures
            r@ == self@,
    {
        Counted { text: self.text.clone(), tokens: self.tokens }
    }
}

#[derive(Clone, Copy, PartialEq, Eq, Structural, Debug)]
pub enum Role {
    User,
    Assistant,
    System,
}

/// One block of a message. An image's source is kept as the JSON text that
/// the provider takes.
pub enum ContentBlock {
    Text(Counted),
    ToolUse { id: String, name: Counted, input: Counted },
    ToolResult { id: String, content: Counted, is_error: Option<bool> },
    Image { source: String },
    Thinking { text: Counted, signature: Option<String> },
}

pub enum BlockV {
    Text(CountedV),
    ToolUse { id: Seq<char>, name: CountedV, input: CountedV },
    ToolResult { id: Seq<char>, content: CountedV, is_error: Option<bool> },
    Image { source: Seq<char> },
    Thinking { text: CountedV, signature: Option<Seq<char>> },
}

impl View for ContentBlock {
    type V = BlockV;

    open spec fn view(&self) -> BlockV {
        match self {
            ContentBlock::Text(t) => BlockV::Text(t@),
            ContentBlock::ToolUse { id, name, input } => BlockV::ToolUse {
                id: id@,
                name: name@,
                input: input@,
            },
            ContentBlock::ToolResult { id, content, is_error } => BlockV::ToolResult {
                id: id@,
                content: content@,
                is_error: *is_error,
            },
            ContentBlock::Image { source } => BlockV::Image { source: source@ },
            ContentBlock::Thinking { text, signature } => BlockV::Thinking {
                text: text@,
                signature: oview(*signature),
            },
        }
    }
}

impl ContentBlock {
    fn dup(&self) -> (r: Self)
        ensures
            r@ == self@,
    {
        match self {
            ContentBlock::Text(t) => ContentBlock::Text(t.dup()),
            ContentBlock::ToolUse { id, name, input } => ContentBlock::ToolUse {
                id: id.clone(),
                name: name.dup(),
                input: input.dup(),
            },
            ContentBlock::ToolResult { id, content, is_error } => ContentBlock::ToolResult {
                id: id.clone(),
                content: content.dup(),
                is_error: *is_error,
            },
            ContentBlock::Image { source } => ContentBlock::Image { source: source.clone() },
            ContentBlock::Thinking { text, signature } => ContentBlock::Thinking {
                text: text.dup(),
                signature: match signature {
                    Some(s) => Some(s.clone()),
                    None => None,
                },
            },
        }
    }
}

pub struct Message {
    pub role: Role,
    pub content: Vec<ContentBlock>,
}

pub struct MessageV {
    pub role: Role,
    pub content: Seq<BlockV>,
}

impl View for Message {
    type V = MessageV;

    open spec fn view(&self) -> MessageV {
        MessageV { role: self.role, content: bviews(self.content@) }
    }
}

impl Message {
    fn dup(&self) -> (r: Self)
        ensures
            r@ == self@,
    {
        let mut content: Vec<ContentBlock> = Vec::new();
        let mut i: usize = 0;
        while i < self.content.len()
            invariant
                i <= self.content.len(),
                bviews(content@) == self@.content.take(i as int),
            decreases self.content.len() - i,
        {
            let ghost pre = content@;
            let b = self.content[i].dup();
            content.push(b);
            assert(bviews(content@) =~= bviews(pre).push(self.content@[i as int]@));
            assert(self@.content.take(i + 1) =~= self@.content.take(i as int).push(
                self.content@[i as int]@,
            ));
            i = i + 1;
        }
        assert(self@.content.take(i as int) =~= self@.content);
        Message { role: self.role, content }
    }

    /// A user message of one text.
    pub fn user(text: Counted) -> (r: Self)
        ensures
            r@ == user_text(text@),
    {
        let ghost t = text@;
        let mut content: Vec<ContentBlock> = Vec::new();
        content.push(ContentBlock::Text(text));
        let r = Message { role: Role::User, content };
        assert(r@.content =~= user_text(t).content);
        r
    }
}

pub open spec fn bviews(s: Seq<ContentBlock>) -> Seq<BlockV> {
    s.map_values(|b: ContentBlock| b@)
}

/// A user message of one text.
pub open spec fn user_text(text: CountedV) -> MessageV {
    MessageV { role: Role::User, content: seq![BlockV::Text(text)] }
}

pub open spec fn mviews(s: Seq<Message>) -> Seq<MessageV> {
    s.map_values(|m: Message| m@)
}

/// A stored row of a conversation.
pub struct DbMessage {
    pub role: String,
    pub content: Counted,
    pub thinking: Option<Counted>,
}

/// A file tracked in the conversation.
pub struct TrackedFile {
    pub id: u128,
    pub path: String,
    pub content: Option<String>,
    pub token_count: usize,
}

/// What a compaction summarises.
#[derive(Clone, Copy, PartialEq, Eq, Structural, Debug)]
pub enum CompactionScope {
    /// No marker in the window yet: everything.
    FullWindow,
    /// Only the messages since the last marker.
    DeltaSinceMarker,
    /// The frozen segments alone exceed half the window: the segments.
    SegmentConsolidation,
}

/// Context of one conversation.
pub struct AgentContext {
    pub session_id: u128,
    pub system_brain: Option<Counted>,
    pub messages: Vec<Message>,
    pub tracked_files: Vec<TrackedFile>,
    /// Current estimate of the tokens.
    pub token_count: usize,
    pub max_tokens: usize,
    /// The provider's own count of the last request, and the estimate at that
    /// moment.
    pub provider_anchor: Option<(usize, usize)>,
}

// ------------------------------------------------------------ token counts
pub open spec fn block_tokens(b: BlockV) -> nat {
    match b {
        BlockV::Text(t) => t.tokens,
        BlockV::ToolUse { id, name, input } => name.tokens + input.tokens,
        BlockV::ToolResult { id, content, is_error } => content.tokens,
        BlockV::Image { source } => IMAGE_TOKENS as nat,
        BlockV::Thinking { text, signature } => text.tokens,
    }
}

pub open spec fn blocks_tokens(bs: Seq<BlockV>) -> nat
    decreases bs.len(),
{
    if bs.len() == 0 {
        0
    } else {
        blocks_tokens(bs.drop_last()) + block_tokens(bs.last())
    }
}

/// Tokens of one message: its blocks and the overhead of its structure.
pub open spec fn message_tokens(m: MessageV) -> nat {
    blocks_tokens(m.content) + MESSAGE_OVERHEAD as nat
}

/// Tokens of a run of messages.
pub open spec fn total_tokens(ms: Seq<MessageV>) -> nat
    decreases ms.len(),
{
    if ms.len() == 0 {
        0
    } else {
        total_tokens(ms.drop_last()) + message_tokens(ms.last())
    }
}

proof fn lemma_blocks_prefix(bs: Seq<BlockV>, n: int)
    requires
        0 <= n <= bs.len(),
    ensures
        blocks_tokens(bs.take(n)) <= blocks_tokens(bs),
    decreases bs.len() - n,
{
    if n < bs.len() {
        assert(bs.take(n + 1).drop_last() =~= bs.take(n));
        lemma_blocks_prefix(bs, n + 1);
    } else {
        assert(bs.take(n) =~= bs);
    }
}

/// The tokens of a concatenation are the sum of the tokens of its parts.
pub proof fn lemma_total_add(a: Seq<MessageV>, b: Seq<MessageV>)
    ensures
        total_tokens(a + b) == total_tokens(a) + total_tokens(b),
    decreases b.len(),
{
    if b.len() == 0 {
        assert(a + b =~= a);
    } else {
        assert((a + b).drop_last() =~= a + b.drop_last());
        lemma_total_add(a, b.drop_last());
    }
}

/// A run costs at least what any of its pieces costs.
pub proof fn lemma_total_piece(ms: Seq<MessageV>, lo: int, hi: int)
    requires
        0 <= lo <= hi <= ms.len(),
    ensures
        total_tokens(ms.subrange(lo, hi)) <= total_tokens(ms),
        total_tokens(ms.subrange(lo, hi)) + total_tokens(ms.subrange(0, lo)) + total_tokens(
            ms.subrange(hi, ms.len() as int),
        ) == total_tokens(ms),
{
    let a = ms.subrange(0, lo);
    let b = ms.subrange(lo, hi);
    let c = ms.subrange(hi, ms.len() as int);
    lemma_total_add(a, b);
    lemma_total_add(a + b, c);
    assert(a + b + c =~= ms);
}

proof fn lemma_total_one(m: MessageV)
    ensures
        total_tokens(seq![m]) == message_tokens(m),
{
    reveal_with_fuel(total_tokens, 2);
    assert(seq![m].drop_last() =~= Seq::<MessageV>::empty());
}

proof fn lemma_total_index(ms: Seq<MessageV>, i: int)
    requires
        0 <= i < ms.len(),
    ensures
        message_tokens(ms[i]) <= total_tokens(ms),
{
    lemma_total_piece(ms, i, i + 1);
    assert(ms.subrange(i, i + 1) =~= seq![ms[i]]);
    lemma_total_one(ms[i]);
}

impl AgentContext {
    /// Tokens of one message.
    pub fn estimate_tokens_static(message: &Message) -> (n: usize)
        requires
            message_tokens(message@) <= usize::MAX,
        ensures
            n == message_tokens(message@),
    {
        let mut tokens: usize = 0;
        let mut i: usize = 0;
        assert(message@.content.take(0) =~= Seq::empty());
        while i < message.content.len()
            invariant
                i <= message.content.len(),
                tokens == blocks_tokens(message@.content.take(i as int)),
                blocks_tokens(message@.content) + MESSAGE_OVERHEAD <= usize::MAX,
            decreases message.content.len() - i,
        {
            proof {
                assert(message@.content.take(i + 1).drop_last() =~= message@.content.take(i as int));
                assert(message@.content[i as int] == message.content@[i as int]@);
                lemma_blocks_prefix(message@.content, i + 1);
            }
            let t: usize = match &message.content[i] {
                ContentBlock::Text(t) => t.tokens,
                ContentBlock::ToolUse { id: _, name, input } => name.tokens + input.tokens,
                ContentBlock::ToolResult { id: _, content, is_error: _ } => content.tokens,
                ContentBlock::Image { source: _ } => IMAGE_TOKENS,
                ContentBlock::Thinking { text, signature: _ } => text.tokens,
            };
            tokens = tokens + t;
            i = i + 1;
        }
        assert(message@.content.take(i as int) =~= message@.content);
        tokens + MESSAGE_OVERHEAD
    }
}

/// Tokens of `ms[lo..hi]`.
fn sum_tokens(ms: &Vec<Message>, lo: usize, hi: usize) -> (n: usize)
    requires
        lo <= hi <= ms.len(),
        total_tokens(mviews(ms@)) <= usize::MAX,
    ensures
        n == total_tokens(mviews(ms@).subrange(lo as int, hi as int)),
{
    let mut n: usize = 0;
    let mut i: usize = lo;
    while i < hi
        invariant
            lo <= i <= hi <= ms.len(),
            total_tokens(mviews(ms@)) <= usize::MAX,
            n == total_tokens(mviews(ms@).subrange(lo as int, i as int)),
        decreases hi - i,
    {
        proof {
            let v = mviews(ms@);
            lemma_total_index(v, i as int);
            assert(v.subrange(lo as int, i + 1).drop_last() =~= v.subrange(lo as int, i as int));
            lemma_total_piece(v, lo as int, i + 1);
        }
        n = n + AgentContext::estimate_tokens_static(&ms[i]);
        i = i + 1;
    }
    n
}

// ------------------------------------------------------------- kinds of message
/// A user message of tool results only: invalid where the tool use before it
/// is gone.
pub open spec fn is_orphan(m: MessageV) -> bool {
    m.role == Role::User && m.content.len() > 0 && forall|i: int|
        0 <= i < m.content.len() ==> m.content[i] is ToolResult
}

/// A user message whose first block is text with the marker prefix.
pub open spec fn is_marker(m: MessageV) -> bool {
    m.role == Role::User && m.content.len() > 0 && m.content[0] is Text && has_prefix(
        m.content[0]->Text_0.text,
        COMPACTION_MARKER_PREFIX@,
    )
}

/// `ms` without its leading orphans.
pub open spec fn without_leading_orphans(ms: Seq<MessageV>) -> Seq<MessageV>
    decreases ms.len(),
{
    if ms.len() > 0 && is_orphan(ms[0]) {
        without_leading_orphans(ms.drop_first())
    } else {
        ms
    }
}

/// Index of the first marker.
pub open spec fn first_marker(ms: Seq<MessageV>) -> Option<int>
    decreases ms.len(),
{
    if ms.len() == 0 {
        None
    } else {
        match first_marker(ms.drop_last()) {
            Some(i) => Some(i),
            None => if is_marker(ms.last()) {
                Some(ms.len() - 1)
            } else {
                None
            },
        }
    }
}

/// Index of the last marker.
pub open spec fn last_marker(ms: Seq<MessageV>) -> Option<int>
    decreases ms.len(),
{
    if ms.len() == 0 {
        None
    } else if is_marker(ms.last()) {
        Some(ms.len() - 1)
    } else {
        last_marker(ms.drop_last())
    }
}

/// What the first marker is.
pub proof fn lemma_first_marker(ms: Seq<MessageV>)
    ensures
        match first_marker(ms) {
            Some(i) => 0 <= i < ms.len() && is_marker(ms[i]) && forall|j: int|
                0 <= j < i ==> !is_marker(#[trigger] ms[j]),
            None => forall|j: int| 0 <= j < ms.len() ==> !is_marker(#[trigger] ms[j]),
        },
    decreases ms.len(),
{
    if ms.len() > 0 {
        lemma_first_marker(ms.drop_last());
        assert forall|j: int| 0 <= j < ms.len() - 1 implies ms.drop_last()[j] == #[trigger] ms[j] by {}
    }
}

/// What the last marker is.
pub proof fn lemma_last_marker(ms: Seq<MessageV>)
    ensures
        match last_marker(ms) {
            Some(i) => 0 <= i < ms.len() && is_marker(ms[i]) && forall|j: int|
                i < j < ms.len() ==> !is_marker(#[trigger] ms[j]),
            None => forall|j: int| 0 <= j < ms.len() ==> !is_marker(#[trigger] ms[j]),
        },
    decreases ms.len(),
{
    if ms.len() > 0 {
        lemma_last_marker(ms.drop_last());
        assert forall|j: int| 0 <= j < ms.len() - 1 implies ms.drop_last()[j] == #[trigger] ms[j] by {}
    }
}

/// What dropping leading orphans leaves: a suffix that does not start with one.
pub proof fn lemma_without_leading_orphans(ms: Seq<MessageV>)
    ensures
        without_leading_orphans(ms).len() <= ms.len(),
        without_leading_orphans(ms) == ms.skip(ms.len() - without_leading_orphans(ms).len()),
        without_leading_orphans(ms).len() > 0 ==> !is_orphan(without_leading_orphans(ms)[0]),
        total_tokens(without_leading_orphans(ms)) <= total_tokens(ms),
    decreases ms.len(),
{
    if ms.len() > 0 && is_orphan(ms[0]) {
        lemma_without_leading_orphans(ms.drop_first());
        let n = without_leading_orphans(ms).len();
        assert(ms.drop_first().skip(ms.len() - 1 - n) =~= ms.skip(ms.len() - n));
        lemma_total_piece(ms, ms.len() - n, ms.len() as int);
    } else {
        assert(ms.skip(0) =~= ms);
    }
}

impl AgentContext {
    /// Whether the message is a run of tool results.
    pub fn is_orphaned_tool_result_msg(msg: &Message) -> (r: bool)
        ensures
            r == is_orphan(msg@),
    {
        if msg.role != Role::User || msg.content.len() == 0 {
            return false;
        }
        let mut i: usize = 0;
        while i < msg.content.len()
            invariant
                i <= msg.content.len(),
                forall|j: int| 0 <= j < i ==> msg@.content[j] is ToolResult,
            decreases msg.content.len() - i,
        {
            assert(msg@.content[i as int] == msg.content@[i as int]@);
            match &msg.content[i] {
                ContentBlock::ToolResult { .. } => {},
                _ => {
                    return false;
                },
            }
            i = i + 1;
        }
        true
    }
}

impl AgentContext {
    /// Whether the message is a compaction marker.
    pub fn is_compaction_marker_msg(m: &Message) -> (r: bool)
        ensures
            r == is_marker(m@),
    {
        if m.role != Role::User || m.content.len() == 0 {
            return false;
        }
        assert(m@.content[0] == m.content@[0]@);
        match &m.content[0] {
            ContentBlock::Text(t) => starts_with(t.text.as_str(), COMPACTION_MARKER_PREFIX),
            _ => false,
        }
    }
}

// --------------------------------------------------------- trimming, as a function
pub open spec fn saturating_minus(a: nat, b: nat) -> nat {
    if a >= b {
        (a - b) as nat
    } else {
        0
    }
}

/// Drops messages from the front while the count is over `limit` and more
/// than `floor` messages are left, taking each one's tokens off the count.
pub open spec fn shed(ms: Seq<MessageV>, count: nat, limit: int, floor: nat) -> (Seq<MessageV>, nat)
    decreases ms.len(),
{
    if count > limit && ms.len() > floor {
        shed(ms.drop_first(), saturating_minus(count, message_tokens(ms[0])), limit, floor)
    } else {
        (ms, count)
    }
}

/// Drops leading orphans while more than `floor` messages are left, taking
/// each one's tokens off the count.
pub open spec fn shed_orphans(ms: Seq<MessageV>, count: nat, floor: nat) -> (Seq<MessageV>, nat)
    decreases ms.len(),
{
    if ms.len() > floor && is_orphan(ms[0]) {
        shed_orphans(ms.drop_first(), saturating_minus(count, message_tokens(ms[0])), floor)
    } else {
        (ms, count)
    }
}

/// How many messages a truncation owes: the most recent pair, where there is
/// one.
pub open spec fn pair(ms: Seq<MessageV>) -> nat {
    if ms.len() < 2 {
        0
    } else {
        2
    }
}

/// What a truncation to `target` tokens leaves: the oldest messages go until
/// the count fits or the most recent pair is left, then leading tool results
/// left without their tool use, but none of that pair.
pub open spec fn truncated(ms: Seq<MessageV>, count: nat, target: nat) -> (Seq<MessageV>, nat) {
    let (some, c) = shed(ms, count, target as int, 2);
    shed_orphans(some, c, pair(ms))
}

/// How many messages at the end fit into `available` tokens together.
pub open spec fn fitting(ms: Seq<MessageV>, available: int) -> nat
    decreases ms.len(),
{
    if ms.len() == 0 || message_tokens(ms.last()) > available {
        0
    } else {
        1 + fitting(ms.drop_last(), available - message_tokens(ms.last()))
    }
}

/// How many messages at the end a compaction keeps: those that fit the budget,
/// which does not count the summary; at least the most recent pair, unless the
/// budget is zero.
pub open spec fn kept_count(ms: Seq<MessageV>, budget: nat) -> nat {
    let fit = fitting(ms, budget as int);
    let least: nat = if ms.len() < 2 {
        ms.len()
    } else {
        2
    };
    if budget > 0 && fit < least {
        least
    } else {
        fit
    }
}

/// The messages at the end that a compaction keeps.
pub open spec fn kept(ms: Seq<MessageV>, budget: nat) -> Seq<MessageV> {
    without_leading_orphans(ms.skip(ms.len() - kept_count(ms, budget)))
}

proof fn lemma_fitting(ms: Seq<MessageV>, available: int)
    ensures
        fitting(ms, available) <= ms.len(),
        available >= 0 ==> total_tokens(ms.skip(ms.len() - fitting(ms, available))) <= available,
        fitting(ms, available) < ms.len() ==> total_tokens(
            ms.skip(ms.len() - fitting(ms, available) - 1),
        ) > available,
    decreases ms.len(),
{
    if ms.len() == 0 || message_tokens(ms.last()) > available {
        assert(ms.skip(ms.len() as int) =~= Seq::empty());
        if ms.len() > 0 {
            assert(ms.skip(ms.len() - 1) =~= seq![ms.last()]);
            lemma_total_one(ms.last());
        }
    } else {
        let rest = available - message_tokens(ms.last());
        lemma_fitting(ms.drop_last(), rest);
        let n = fitting(ms, available);
        let tail = ms.skip(ms.len() - n);
        assert(tail.drop_last() =~= ms.drop_last().skip(ms.drop_last().len() - (n - 1)));
        if n < ms.len() {
            let more = ms.skip(ms.len() - n - 1);
            assert(more.drop_last() =~= ms.drop_last().skip(ms.drop_last().len() - n));
        }
    }
}

// ------------------------------------------------------------ marker texts
/// Banner and summary of a full-window compaction.
pub open spec fn full_marker(summary: Seq<char>) -> Seq<char> {
    "[CONTEXT COMPACTION — The conversation was automatically compacted. Below is a structured summary of everything before this point.]\n\n"@
        + summary
}

/// Banner and summary of a delta segment.
pub open spec fn delta_marker(summary: Seq<char>) -> Seq<char> {
    "[CONTEXT COMPACTION — DELTA SEGMENT. This block summarises only the messages since the previous compaction marker. The earlier frozen segments above remain in force unchanged; do not re-derive or merge them.]\n\n"@
        + summary
}

/// Banner and summary of a consolidation.
pub open spec fn consolidated_marker(summary: Seq<char>) -> Seq<char> {
    "[CONTEXT COMPACTION — The session's accumulated compaction summaries were consolidated into this single self-contained summary. It replaces every earlier one; nothing before this point survives except this marker.]\n\n"@
        + summary
}

/// The text of a full-window marker.
pub fn full_marker_text(summary: &str) -> (r: String)
    ensures
        r@ == full_marker(summary@),
{
    cat2(
        "[CONTEXT COMPACTION — The conversation was automatically compacted. Below is a structured summary of everything before this point.]\n\n",
        summary,
    )
}

/// The text of a delta-segment marker.
pub fn delta_marker_text(summary: &str) -> (r: String)
    ensures
        r@ == delta_marker(summary@),
{
    cat2(
        "[CONTEXT COMPACTION — DELTA SEGMENT. This block summarises only the messages since the previous compaction marker. The earlier frozen segments above remain in force unchanged; do not re-derive or merge them.]\n\n",
        summary,
    )
}

/// The text of a consolidation marker.
pub fn consolidated_marker_text(summary: &str) -> (r: String)
    ensures
        r@ == consolidated_marker(summary@),
{
    cat2(
        "[CONTEXT COMPACTION — The session's accumulated compaction summaries were consolidated into this single self-contained summary. It replaces every earlier one; nothing before this point survives except this marker.]\n\n",
        summary,
    )
}

/// A user message of one text that ends with a summary.
pub open spec fn bears(m: MessageV, summary: Seq<char>) -> bool {
    &&& m.role == Role::User
    &&& m.content.len() == 1
    &&& m.content[0] is Text
    &&& ({
        let text = m.content[0]->Text_0.text;
        text.len() >= summary.len() && text.skip(text.len() - summary.len()) == summary
    })
}

/// A compaction loses nothing of its summary: each kind of marker is a banner
/// that does not depend on the summary, then the summary itself, so two
/// summaries leave two texts. The banners of the kinds differ.
pub proof fn law_marker_ends_with_its_summary(a: Seq<char>, b: Seq<char>)
    ensures
        full_marker(a).len() - a.len() == full_marker(b).len() - b.len() > 0,
        full_marker(a).skip(full_marker(a).len() - a.len()) == a,
        full_marker(a).take(full_marker(a).len() - a.len()) == full_marker(b).take(
            full_marker(b).len() - b.len(),
        ),
        delta_marker(a).len() - a.len() == delta_marker(b).len() - b.len() > 0,
        delta_marker(a).skip(delta_marker(a).len() - a.len()) == a,
        delta_marker(a).take(delta_marker(a).len() - a.len()) == delta_marker(b).take(
            delta_marker(b).len() - b.len(),
        ),
        consolidated_marker(a).len() - a.len() == consolidated_marker(b).len() - b.len() > 0,
        consolidated_marker(a).skip(consolidated_marker(a).len() - a.len()) == a,
        consolidated_marker(a).take(consolidated_marker(a).len() - a.len())
            == consolidated_marker(b).take(consolidated_marker(b).len() - b.len()),
        full_marker(a) == full_marker(b) ==> a == b,
        delta_marker(a) == delta_marker(b) ==> a == b,
        consolidated_marker(a) == consolidated_marker(b) ==> a == b,
        full_marker(a) != delta_marker(b),
        full_marker(a) != consolidated_marker(b),
        delta_marker(a) != consolidated_marker(b),
        has_prefix(full_marker(a), "[CONTEXT COMPACTION"@),
        has_prefix(delta_marker(a), "[CONTEXT COMPACTION"@),
        has_prefix(consolidated_marker(a), "[CONTEXT COMPACTION"@),
{
    lemma_marker_texts(a);
    reveal_strlit(
        "[CONTEXT COMPACTION — The conversation was automatically compacted. Below is a structured summary of everything before this point.]\n\n",
    );
    reveal_strlit(
        "[CONTEXT COMPACTION — DELTA SEGMENT. This block summarises only the messages since the previous compaction marker. The earlier frozen segments above remain in force unchanged; do not re-derive or merge them.]\n\n",
    );
    reveal_strlit(
        "[CONTEXT COMPACTION — The session's accumulated compaction summaries were consolidated into this single self-contained summary. It replaces every earlier one; nothing before this point survives except this marker.]\n\n",
    );
    assert(full_marker(a).skip(full_marker(a).len() - a.len()) =~= a);
    assert(full_marker(b).skip(full_marker(b).len() - b.len()) =~= b);
    assert(full_marker(a).take(full_marker(a).len() - a.len()) =~= full_marker(b).take(
        full_marker(b).len() - b.len(),
    ));
    assert(delta_marker(a).skip(delta_marker(a).len() - a.len()) =~= a);
    assert(delta_marker(b).skip(delta_marker(b).len() - b.len()) =~= b);
    assert(delta_marker(a).take(delta_marker(a).len() - a.len()) =~= delta_marker(b).take(
        delta_marker(b).len() - b.len(),
    ));
    assert(consolidated_marker(a).skip(consolidated_marker(a).len() - a.len()) =~= a);
    assert(consolidated_marker(b).skip(consolidated_marker(b).len() - b.len()) =~= b);
    assert(consolidated_marker(a).take(consolidated_marker(a).len() - a.len())
        =~= consolidated_marker(b).take(consolidated_marker(b).len() - b.len()));
    assert(full_marker(a)[22] == 'T' && full_marker(a)[26] == 'c');
    assert(delta_marker(b)[22] == 'D' && delta_marker(a)[22] == 'D');
    assert(consolidated_marker(b)[22] == 'T' && consolidated_marker(b)[26] == 's');
}

/// The three texts are markers: each starts with the marker prefix.
pub proof fn lemma_marker_texts(summary: Seq<char>)
    ensures
        has_prefix(full_marker(summary), COMPACTION_MARKER_PREFIX@),
        has_prefix(delta_marker(summary), COMPACTION_MARKER_PREFIX@),
        has_prefix(consolidated_marker(summary), COMPACTION_MARKER_PREFIX@),
{
    reveal_strlit("[CONTEXT COMPACTION");
    reveal_strlit(
        "[CONTEXT COMPACTION — The conversation was automatically compacted. Below is a structured summary of everything before this point.]\n\n",
    );
    reveal_strlit(
        "[CONTEXT COMPACTION — DELTA SEGMENT. This block summarises only the messages since the previous compaction marker. The earlier frozen segments above remain in force unchanged; do not re-derive or merge them.]\n\n",
    );
    reveal_strlit(
        "[CONTEXT COMPACTION — The session's accumulated compaction summaries were consolidated into this single self-contained summary. It replaces every earlier one; nothing before this point survives except this marker.]\n\n",
    );
    let p = COMPACTION_MARKER_PREFIX@;
    assert(full_marker(summary).subrange(0, p.len() as int) =~= p);
    assert(delta_marker(summary).subrange(0, p.len() as int) =~= p);
    assert(consolidated_marker(summary).subrange(0, p.len() as int) =~= p);
}

// --------------------------------------------------------- the context
/// Tokens of the system brain.
pub open spec fn brain_tokens(brain: Option<Counted>) -> nat {
    match brain {
        Some(b) => b.tokens as nat,
        None => 0,
    }
}

/// Everything but messages, counts and anchor.
pub open spec fn same_frame(a: AgentContext, b: AgentContext) -> bool {
    &&& a.session_id == b.session_id
    &&& a.system_brain == b.system_brain
    &&& a.tracked_files == b.tracked_files
    &&& a.max_tokens == b.max_tokens
}

/// A stored row, as values.
pub struct RowV {
    pub role: Seq<char>,
    pub content: CountedV,
    pub thinking: Option<CountedV>,
}

impl View for DbMessage {
    type V = RowV;

    open spec fn view(&self) -> RowV {
        RowV {
            role: self.role@,
            content: self.content@,
            thinking: match self.thinking {
                Some(t) => Some(t@),
                None => None,
            },
        }
    }
}

/// The role a stored name stands for; an unknown one reads as the user.
pub open spec fn role_named(name: Seq<char>) -> Role {
    if name == "assistant"@ {
        Role::Assistant
    } else if name == "system"@ {
        Role::System
    } else {
        Role::User
    }
}

pub open spec fn has_thinking(row: RowV) -> bool {
    row.thinking is Some && !is_blank(row.thinking->0.text)
}

/// The message a stored row becomes; a row without content and without
/// reasoning becomes none.
pub open spec fn row_message(row: RowV) -> Option<MessageV> {
    let has_content = row.content.text.len() > 0;
    let role = role_named(row.role);
    if !has_content && !has_thinking(row) {
        None
    } else {
        let thinking = if role == Role::Assistant && has_thinking(row) {
            seq![BlockV::Thinking { text: row.thinking->0, signature: None }]
        } else {
            Seq::empty()
        };
        let text = if has_content {
            seq![BlockV::Text(row.content)]
        } else {
            Seq::empty()
        };
        Some(MessageV { role, content: thinking + text })
    }
}

/// The messages of a run of rows, in order.
pub open spec fn row_messages(rows: Seq<RowV>) -> Seq<MessageV>
    decreases rows.len(),
{
    if rows.len() == 0 {
        Seq::empty()
    } else {
        let init = row_messages(rows.drop_last());
        match row_message(rows.last()) {
            Some(m) => init.push(m),
            None => init,
        }
    }
}

pub open spec fn rviews(rows: Seq<DbMessage>) -> Seq<RowV> {
    rows.map_values(|r: DbMessage| r@)
}

/// The message a stored row becomes.
fn message_of_row(row: &DbMessage) -> (r: Option<Message>)
    ensures
        match r {
            Some(m) => row_message(row@) == Some(m@),
            None => row_message(row@) is None,
        },
{
    let has_content = !row.content.text.as_str().is_empty();
    let thinks = match &row.thinking {
        Some(t) => !blank(t.text.as_str()),
        None => false,
    };
    if !has_content && !thinks {
        return None;
    }
    let role = if str_eq(row.role.as_str(), "assistant") {
        Role::Assistant
    } else if str_eq(row.role.as_str(), "system") {
        Role::System
    } else {
        Role::User
    };
    let mut content: Vec<ContentBlock> = Vec::new();
    let ghost mut expect = Seq::<BlockV>::empty();
    if role == Role::Assistant && thinks {
        if let Some(t) = &row.thinking {
            content.push(ContentBlock::Thinking { text: t.dup(), signature: None });
            proof {
                expect = seq![BlockV::Thinking { text: t@, signature: None }];
            }
            assert(bviews(content@) =~= expect);
        }
    }
    assert(bviews(content@) =~= expect);
    if has_content {
        let ghost pre = content@;
        let c = row.content.dup();
        content.push(ContentBlock::Text(c));
        assert(bviews(content@) =~= bviews(pre) + seq![BlockV::Text(row@.content)]);
    }
    let m = Message { role, content };
    assert(m@.content =~= row_message(row@)->0.content);
    Some(m)
}

/// How many messages at the end fit into `available` tokens together.
fn fit_count(ms: &Vec<Message>, available: usize) -> (n: usize)
    requires
        total_tokens(mviews(ms@)) <= usize::MAX,
    ensures
        n == fitting(mviews(ms@), available as int),
        n <= ms.len(),
{
    let mut n: usize = 0;
    let mut left: usize = available;
    assert(mviews(ms@).take(ms@.len() as int) =~= mviews(ms@));
    while n < ms.len()
        invariant
            n <= ms.len(),
            total_tokens(mviews(ms@)) <= usize::MAX,
            fitting(mviews(ms@), available as int) == n + fitting(
                mviews(ms@).take(ms@.len() - n),
                left as int,
            ),
        decreases ms.len() - n,
    {
        let ghost v = mviews(ms@);
        let ghost at = ms@.len() - 1 - n;
        proof {
            lemma_total_index(v, at);
            assert(v.take(ms@.len() - n).last() == v[at]);
            assert(v.take(ms@.len() - n).drop_last() =~= v.take(at));
        }
        let t: usize = AgentContext::estimate_tokens_static(&ms[ms.len() - 1 - n]);
        if t > left {
            return n;
        }
        left = left - t;
        n = n + 1;
    }
    n
}

impl AgentContext {
    /// The messages, as values.
    pub open spec fn msgs(&self) -> Seq<MessageV> {
        mviews(self.messages@)
    }

    /// The tokens of all messages fit a machine word.
    pub open spec fn wf(&self) -> bool {
        total_tokens(self.msgs()) <= usize::MAX
    }

    /// The count after a compaction: brain and messages.
    pub open spec fn recount(&self) -> nat {
        brain_tokens(self.system_brain) + total_tokens(self.msgs())
    }

    /// A context without messages.
    pub fn new(session_id: u128, max_tokens: usize) -> (r: Self)
        ensures
            r.wf(),
            r.session_id == session_id,
            r.system_brain is None,
            r.msgs() == Seq::<MessageV>::empty(),
            r.tracked_files@.len() == 0,
            r.token_count == 0,
            r.max_tokens == max_tokens,
            r.provider_anchor is None,
    {
        let r = AgentContext {
            session_id,
            system_brain: None,
            messages: Vec::new(),
            tracked_files: Vec::new(),
            token_count: 0,
            max_tokens,
            provider_anchor: None,
        };
        assert(r.msgs() =~= Seq::empty());
        r
    }

    /// Sets the system brain.
    pub fn with_system_brain(self, prompt: Counted) -> (r: Self)
        requires
            self.token_count + prompt.tokens <= usize::MAX,
        ensures
            r == (AgentContext {
                token_count: (self.token_count + prompt.tokens) as usize,
                system_brain: Some(prompt),
                ..self
            }),
    {
        let mut r = self;
        r.token_count = r.token_count + prompt.tokens;
        r.system_brain = Some(prompt);
        r
    }

    /// Tokens of one message.
    pub fn estimate_message_tokens(&self, message: &Message) -> (n: usize)
        requires
            message_tokens(message@) <= usize::MAX,
        ensures
            n == message_tokens(message@),
    {
        Self::estimate_tokens_static(message)
    }

    /// Adds a message at the end.
    pub fn add_message(&mut self, message: Message)
        requires
            old(self).wf(),
            old(self).token_count + message_tokens(message@) <= usize::MAX,
            total_tokens(old(self).msgs()) + message_tokens(message@) <= usize::MAX,
        ensures
            final(self).wf(),
            same_frame(*final(self), *old(self)),
            final(self).provider_anchor == old(self).provider_anchor,
            final(self).msgs() == old(self).msgs().push(message@),
            final(self).token_count == old(self).token_count + message_tokens(message@),
    {
        let ghost m = message@;
        let tokens: usize = Self::estimate_tokens_static(&message);
        self.token_count = self.token_count + tokens;
        self.messages.push(message);
        assert(self.msgs() =~= old(self).msgs().push(m));
        assert(self.msgs().drop_last() =~= old(self).msgs());
    }

    /// The context of a stored conversation.
    pub fn from_db_messages(session_id: u128, db_messages: Vec<DbMessage>, max_tokens: usize) -> (r:
        Self)
        requires
            total_tokens(row_messages(rviews(db_messages@))) <= usize::MAX,
        ensures
            r.wf(),
            r.session_id == session_id,
            r.system_brain is None,
            r.tracked_files@.len() == 0,
            r.max_tokens == max_tokens,
            r.provider_anchor is None,
            r.msgs() == row_messages(rviews(db_messages@)),
            r.token_count == total_tokens(r.msgs()),
    {
        let mut context = AgentContext::new(session_id, max_tokens);
        let mut i: usize = 0;
        let ghost rows = rviews(db_messages@);
        assert(rows.take(0) =~= Seq::empty());
        while i < db_messages.len()
            invariant
                i <= db_messages.len(),
                rows == rviews(db_messages@),
                total_tokens(row_messages(rows)) <= usize::MAX,
                context.wf(),
                context.session_id == session_id,
                context.system_brain is None,
                context.tracked_files@.len() == 0,
                context.max_tokens == max_tokens,
                context.provider_anchor is None,
                context.msgs() == row_messages(rows.take(i as int)),
                context.token_count == total_tokens(context.msgs()),
            decreases db_messages.len() - i,
        {
            proof {
                assert(rows.take(i + 1).drop_last() =~= rows.take(i as int));
                assert(rows[i as int] == db_messages@[i as int]@);
                lemma_row_messages_prefix(rows, i + 1);
            }
            if let Some(m) = message_of_row(&db_messages[i]) {
                let ghost before = context.msgs();
                proof {
                    assert(row_messages(rows.take(i + 1)) == before.push(m@));
                    assert(before.push(m@).drop_last() =~= before);
                }
                context.add_message(m);
            }
            i = i + 1;
        }
        assert(rows.take(i as int) =~= rows);
        context
    }

    /// Tracks a file in the conversation.
    pub fn track_file(&mut self, file: TrackedFile)
        requires
            old(self).token_count + file.token_count <= usize::MAX,
        ensures
            final(self).session_id == old(self).session_id,
            final(self).system_brain == old(self).system_brain,
            final(self).messages == old(self).messages,
            final(self).max_tokens == old(self).max_tokens,
            final(self).provider_anchor == old(self).provider_anchor,
            final(self).tracked_files@ == old(self).tracked_files@.push(file),
            final(self).token_count == old(self).token_count + file.token_count,
    {
        self.token_count = self.token_count + file.token_count;
        self.tracked_files.push(file);
    }

    /// Whether the context would exceed its limit with that many more tokens.
    pub fn would_exceed_limit(&self, additional_tokens: usize) -> (r: bool)
        ensures
            r == (self.token_count + additional_tokens > self.max_tokens),
    {
        additional_tokens > self.max_tokens || self.token_count > self.max_tokens
            - additional_tokens
    }

    /// The size of the next request, preferring the provider's count moved by
    /// how much the estimate has shifted since.
    pub fn effective_token_count(&self) -> (n: usize)
        ensures
            n == effective(self.provider_anchor, self.token_count),
    {
        match self.provider_anchor {
            Some((reported, estimated_at_anchor)) => {
                let sum: usize = if reported > usize::MAX - self.token_count {
                    usize::MAX
                } else {
                    reported + self.token_count
                };
                if sum >= estimated_at_anchor {
                    sum - estimated_at_anchor
                } else {
                    0
                }
            },
            None => self.token_count,
        }
    }

    /// Anchors the budget on a size the provider reported.
    pub fn record_provider_reported_tokens(&mut self, reported: usize)
        ensures
            *final(self) == (AgentContext {
                provider_anchor: Some((reported, old(self).token_count)),
                ..*old(self)
            }),
    {
        self.provider_anchor = Some((reported, self.token_count));
    }

    /// Removes the first message and takes its tokens off the count.
    fn drop_first_message(&mut self)
        requires
            old(self).wf(),
            old(self).messages@.len() > 0,
        ensures
            final(self).wf(),
            same_frame(*final(self), *old(self)),
            final(self).provider_anchor == old(self).provider_anchor,
            final(self).msgs() == old(self).msgs().drop_first(),
            final(self).token_count == saturating_minus(
                old(self).token_count as nat,
                message_tokens(old(self).msgs()[0]),
            ),
    {
        proof {
            lemma_total_index(self.msgs(), 0);
            lemma_total_piece(self.msgs(), 1, self.msgs().len() as int);
            assert(self.msgs().subrange(1, self.msgs().len() as int) =~= self.msgs().drop_first());
        }
        let tokens: usize = Self::estimate_tokens_static(&self.messages[0]);
        self.token_count = if self.token_count >= tokens {
            self.token_count - tokens
        } else {
            0
        };
        self.messages.remove(0);
        assert(self.msgs() =~= old(self).msgs().drop_first());
    }

    /// Removes leading user messages that consist solely of tool results, while
    /// more than `floor` messages are left.
    fn drop_orphans_above(&mut self, floor: usize)
        requires
            old(self).wf(),
        ensures
            final(self).wf(),
            same_frame(*final(self), *old(self)),
            final(self).provider_anchor == old(self).provider_anchor,
            (final(self).msgs(), final(self).token_count as nat) == shed_orphans(
                old(self).msgs(),
                old(self).token_count as nat,
                floor as nat,
            ),
    {
        while self.messages.len() > floor && Self::is_orphaned_tool_result_msg(&self.messages[0])
            invariant
                self.wf(),
                same_frame(*self, *old(self)),
                self.provider_anchor == old(self).provider_anchor,
                shed_orphans(self.msgs(), self.token_count as nat, floor as nat) == shed_orphans(
                    old(self).msgs(),
                    old(self).token_count as nat,
                    floor as nat,
                ),
            decreases self.messages.len(),
        {
            self.drop_first_message();
        }
    }

    /// Removes leading user messages that consist solely of tool results.
    pub fn drop_leading_orphan_tool_results(&mut self)
        requires
            old(self).wf(),
        ensures
            final(self).wf(),
            same_frame(*final(self), *old(self)),
            final(self).provider_anchor == old(self).provider_anchor,
            (final(self).msgs(), final(self).token_count as nat) == shed_orphans(
                old(self).msgs(),
                old(self).token_count as nat,
                0,
            ),
    {
        self.drop_orphans_above(0);
    }

    /// Drops the oldest messages while the context, with `required_space` more
    /// tokens, is over its limit; then leading tool results left without their
    /// tool use.
    pub fn trim_to_fit(&mut self, required_space: usize)
        requires
            old(self).wf(),
        ensures
            final(self).wf(),
            same_frame(*final(self), *old(self)),
            final(self).provider_anchor == old(self).provider_anchor,
            ({
                let (ms, count) = shed(
                    old(self).msgs(),
                    old(self).token_count as nat,
                    old(self).max_tokens - required_space,
                    0,
                );
                (final(self).msgs(), final(self).token_count as nat) == shed_orphans(ms, count, 0)
            }),
    {
        while self.would_exceed_limit(required_space) && self.messages.len() > 0
            invariant
                self.wf(),
                same_frame(*self, *old(self)),
                self.provider_anchor == old(self).provider_anchor,
                shed(
                    self.msgs(),
                    self.token_count as nat,
                    self.max_tokens - required_space,
                    0,
                ) == shed(
                    old(self).msgs(),
                    old(self).token_count as nat,
                    old(self).max_tokens - required_space,
                    0,
                ),
            decreases self.messages.len(),
        {
            self.drop_first_message();
        }
        self.drop_leading_orphan_tool_results();
    }

    /// Drops the oldest messages until the count is at or below
    /// `target_tokens` or two messages are left; then leading tool results
    /// left without their tool use. The most recent pair always stays.
    pub fn hard_truncate_to(&mut self, target_tokens: usize)
        requires
            old(self).wf(),
        ensures
            final(self).wf(),
            same_frame(*final(self), *old(self)),
            final(self).provider_anchor == old(self).provider_anchor,
            (final(self).msgs(), final(self).token_count as nat) == truncated(
                old(self).msgs(),
                old(self).token_count as nat,
                target_tokens as nat,
            ),
            old(self).msgs().len() >= 2 ==> final(self).msgs().len() >= 2,
    {
        let floor: usize = if self.messages.len() < 2 {
            0
        } else {
            2
        };
        proof {
            law_truncation_keeps_the_pair(
                self.msgs(),
                self.token_count as nat,
                target_tokens as nat,
            );
        }
        while self.token_count > target_tokens && self.messages.len() > 2
            invariant
                self.wf(),
                same_frame(*self, *old(self)),
                self.provider_anchor == old(self).provider_anchor,
                shed(self.msgs(), self.token_count as nat, target_tokens as int, 2) == shed(
                    old(self).msgs(),
                    old(self).token_count as nat,
                    target_tokens as int,
                    2,
                ),
            decreases self.messages.len(),
        {
            self.drop_first_message();
        }
        self.drop_orphans_above(floor);
    }

    /// Index of the first compaction marker, if any.
    pub fn first_marker_index(&self) -> (r: Option<usize>)
        ensures
            match r {
                Some(i) => first_marker(self.msgs()) == Some(i as int) && i < self.messages.len(),
                None => first_marker(self.msgs()) is None,
            },
    {
        let mut i: usize = 0;
        assert(self.msgs().take(0) =~= Seq::empty());
        while i < self.messages.len()
            invariant
                i <= self.messages@.len(),
                first_marker(self.msgs().take(i as int)) is None,
            decreases self.messages.len() - i,
        {
            assert(self.msgs().take(i + 1).drop_last() =~= self.msgs().take(i as int));
            if Self::is_compaction_marker_msg(&self.messages[i]) {
                proof {
                    lemma_first_marker_prefix(self.msgs(), i + 1);
                }
                return Some(i);
            }
            i = i + 1;
        }
        assert(self.msgs().take(i as int) =~= self.msgs());
        None
    }

    /// Index of the last compaction marker, if any.
    pub fn last_marker_index(&self) -> (r: Option<usize>)
        ensures
            match r {
                Some(i) => last_marker(self.msgs()) == Some(i as int) && i < self.messages.len(),
                None => last_marker(self.msgs()) is None,
            },
    {
        let mut i: usize = self.messages.len();
        assert(self.msgs().take(i as int) =~= self.msgs());
        while i > 0
            invariant
                i <= self.messages@.len(),
                last_marker(self.msgs()) == last_marker(self.msgs().take(i as int)),
            decreases i,
        {
            assert(self.msgs().take(i as int).drop_last() =~= self.msgs().take(i - 1));
            if Self::is_compaction_marker_msg(&self.messages[i - 1]) {
                return Some(i - 1);
            }
            i = i - 1;
        }
        None
    }

    /// A copy of the messages from `from` on.
    fn messages_from(&self, from: usize) -> (r: Vec<Message>)
        requires
            from <= self.messages@.len(),
        ensures
            mviews(r@) == self.msgs().skip(from as int),
    {
        let mut r: Vec<Message> = Vec::new();
        let mut i: usize = from;
        while i < self.messages.len()
            invariant
                from <= i <= self.messages@.len(),
                mviews(r@) == self.msgs().subrange(from as int, i as int),
            decreases self.messages.len() - i,
        {
            let ghost pre = r@;
            let m = self.messages[i].dup();
            r.push(m);
            assert(mviews(r@) =~= mviews(pre).push(self.messages@[i as int]@));
            assert(self.msgs().subrange(from as int, i + 1) =~= self.msgs().subrange(
                from as int,
                i as int,
            ).push(self.messages@[i as int]@));
            i = i + 1;
        }
        assert(self.msgs().subrange(from as int, i as int) =~= self.msgs().skip(from as int));
        r
    }

    /// The messages after the last marker; all of them where there is none.
    pub fn delta_since_last_marker(&self) -> (r: Vec<Message>)
        ensures
            mviews(r@) == delta(self.msgs()),
    {
        match self.last_marker_index() {
            Some(idx) => self.messages_from(idx + 1),
            None => {
                assert(self.msgs().skip(0) =~= self.msgs());
                self.messages_from(0)
            },
        }
    }

    /// Tokens of everything through the last marker.
    pub fn segments_token_count(&self) -> (n: usize)
        requires
            self.wf(),
        ensures
            n == segment_tokens(self.msgs()),
    {
        match self.last_marker_index() {
            Some(idx) => {
                assert(self.msgs().subrange(0, idx + 1) =~= self.msgs().take(idx + 1));
                sum_tokens(&self.messages, 0, idx + 1)
            },
            None => 0,
        }
    }

    /// What a new compaction summarises.
    pub fn compaction_scope(&self) -> (r: CompactionScope)
        requires
            self.wf(),
        ensures
            r == scope_of(self.msgs(), self.max_tokens as nat),
    {
        if self.last_marker_index().is_none() {
            return CompactionScope::FullWindow;
        }
        if self.segments_token_count() > self.max_tokens / 2 {
            CompactionScope::SegmentConsolidation
        } else {
            CompactionScope::DeltaSinceMarker
        }
    }

    /// The text of every marker, in order.
    pub fn segment_marker_texts(&self) -> (r: Vec<String>)
        ensures
            views(r@) == marker_texts(self.msgs()),
    {
        let mut r: Vec<String> = Vec::new();
        let mut i: usize = 0;
        assert(self.msgs().take(0) =~= Seq::empty());
        assert(views(r@) =~= Seq::empty());
        while i < self.messages.len()
            invariant
                i <= self.messages@.len(),
                views(r@) == marker_texts(self.msgs().take(i as int)),
            decreases self.messages.len() - i,
        {
            assert(self.msgs().take(i + 1).drop_last() =~= self.msgs().take(i as int));
            if Self::is_compaction_marker_msg(&self.messages[i]) {
                assert(self.msgs()[i as int].content[0] == self.messages@[i as int].content@[0]@);
                if let ContentBlock::Text(t) = &self.messages[i].content[0] {
                    let ghost pre = views(r@);
                    r.push(t.text.clone());
                    assert(views(r@) =~= pre.push(t.text@));
                }
            }
            i = i + 1;
        }
        assert(self.msgs().take(i as int) =~= self.msgs());
        r
    }

    /// The marker texts as one text: the input of a consolidation.
    pub fn consolidation_text(&self) -> (r: String)
        ensures
            r@ == join(marker_texts(self.msgs()), "\n\n---\n\n"@),
    {
        join_strs(&self.segment_marker_texts(), "\n\n---\n\n")
    }

    /// The summariser's input: the scope, its messages and their tokens.
    /// `joined_tokens` is the token count of the consolidation text.
    pub fn compaction_input(&self, joined_tokens: usize) -> (r: (
        CompactionScope,
        Vec<Message>,
        usize,
    ))
        requires
            self.wf(),
            joined_tokens + MESSAGE_OVERHEAD <= usize::MAX,
        ensures
            r.0 == scope_of(self.msgs(), self.max_tokens as nat),
            match r.0 {
                CompactionScope::FullWindow => mviews(r.1@) == self.msgs() && r.2
                    == self.token_count,
                CompactionScope::DeltaSinceMarker => mviews(r.1@) == delta(self.msgs()) && r.2
                    == total_tokens(delta(self.msgs())),
                CompactionScope::SegmentConsolidation => mviews(r.1@) == seq![
                    user_text(
                        CountedV {
                            text: join(marker_texts(self.msgs()), "\n\n---\n\n"@),
                            tokens: joined_tokens as nat,
                        },
                    ),
                ] && r.2 == joined_tokens + MESSAGE_OVERHEAD,
            },
    {
        let scope = self.compaction_scope();
        match scope {
            CompactionScope::FullWindow => {
                assert(self.msgs().skip(0) =~= self.msgs());
                (scope, self.messages_from(0), self.token_count)
            },
            CompactionScope::DeltaSinceMarker => {
                let d = self.delta_since_last_marker();
                proof {
                    let v = self.msgs();
                    lemma_last_marker(v);
                    let i = last_marker(v)->0 + 1;
                    lemma_total_piece(v, i, v.len() as int);
                    assert(v.subrange(i, v.len() as int) =~= v.skip(i));
                    assert(mviews(d@).subrange(0, d@.len() as int) =~= mviews(d@));
                }
                let tokens: usize = sum_tokens(&d, 0, d.len());
                (scope, d, tokens)
            },
            CompactionScope::SegmentConsolidation => {
                let text = self.consolidation_text();
                let m = Message::user(Counted { text, tokens: joined_tokens });
                let ghost mv = m@;
                let mut ms: Vec<Message> = Vec::new();
                ms.push(m);
                assert(mviews(ms@) =~= seq![mv]);
                (scope, ms, joined_tokens + MESSAGE_OVERHEAD)
            },
        }
    }

    /// Recalculates the count: brain and messages.
    fn recount_tokens_after_compaction(&mut self)
        requires
            old(self).recount() <= usize::MAX,
        ensures
            final(self).recount() == old(self).recount(),
            *final(self) == (AgentContext {
                token_count: old(self).recount() as usize,
                ..*old(self)
            }),
    {
        let brain: usize = match &self.system_brain {
            Some(b) => b.tokens,
            None => 0,
        };
        assert(self.msgs().subrange(0, self.msgs().len() as int) =~= self.msgs());
        self.token_count = brain + sum_tokens(&self.messages, 0, self.messages.len());
    }

    /// Replaces old messages with a summary: the most recent messages that fit
    /// the budget stay, behind a marker that carries the summary. The budget
    /// does not count the summary. `marker_tokens` counts the marker's text.
    pub fn compact_with_summary(
        &mut self,
        summary: &str,
        marker_tokens: usize,
        keep_token_budget: usize,
    )
        requires
            old(self).wf(),
            brain_tokens(old(self).system_brain) + marker_tokens + MESSAGE_OVERHEAD + total_tokens(
                kept(old(self).msgs(), keep_token_budget as nat),
            ) <= usize::MAX,
        ensures
            final(self).wf(),
            same_frame(*final(self), *old(self)),
            final(self).msgs() == seq![
                user_text(
                    CountedV { text: full_marker(summary@), tokens: marker_tokens as nat },
                ),
            ] + kept(old(self).msgs(), keep_token_budget as nat),
            bears(final(self).msgs()[0], summary@),
            total_tokens(old(self).msgs()) <= keep_token_budget && (old(self).msgs().len() > 0
                ==> !is_orphan(old(self).msgs()[0])) ==> final(self).msgs().skip(1)
                == old(self).msgs(),
            final(self).token_count == final(self).recount(),
            final(self).provider_anchor is None,
    {
        let ghost v = self.msgs();
        let mut keep: usize = fit_count(&self.messages, keep_token_budget);
        if keep_token_budget > 0 {
            let least: usize = if self.messages.len() < 2 {
                self.messages.len()
            } else {
                2
            };
            if keep < least {
                keep = least;
            }
        }
        let ghost at0 = v.len() - keep;
        let mut at: usize = self.messages.len() - keep;
        while at < self.messages.len() && Self::is_orphaned_tool_result_msg(&self.messages[at])
            invariant
                self.msgs() == v,
                at0 <= at <= self.messages@.len(),
                0 <= at0 <= v.len(),
                *self == *old(self),
                without_leading_orphans(v.skip(at as int)) == without_leading_orphans(v.skip(at0)),
            decreases self.messages.len() - at,
        {
            assert(v.skip(at as int).drop_first() =~= v.skip(at + 1));
            at = at + 1;
        }
        let ghost k = kept(v, keep_token_budget as nat);
        let mut tail = self.messages.split_off(at);
        assert(mviews(tail@) =~= k);
        self.messages.clear();
        let marker = Message::user(
            Counted { text: full_marker_text(summary), tokens: marker_tokens },
        );
        let ghost mv = marker@;
        self.messages.push(marker);
        self.messages.append(&mut tail);
        assert(self.msgs() =~= seq![mv] + k);
        assert(self.msgs().skip(1) =~= k);
        assert(bears(self.msgs()[0], summary@)) by {
            law_marker_ends_with_its_summary(summary@, summary@);
        }
        proof {
            if total_tokens(v) <= keep_token_budget && (v.len() > 0 ==> !is_orphan(v[0])) {
                law_compaction_keeps_what_fits(v, keep_token_budget as nat);
            }
            lemma_marker_cost(mv, k);
        }
        self.recount_tokens_after_compaction();
        self.provider_anchor = None;
    }

    /// Applies a delta summary: the frozen segments stay as they are, and what
    /// follows the last marker is replaced by a new segment marker. Without a
    /// marker this is a full-window compaction that keeps nothing.
    /// `delta_tokens` and `full_tokens` count the text of either marker.
    pub fn compact_with_delta_summary(
        &mut self,
        summary: &str,
        delta_tokens: usize,
        full_tokens: usize,
    )
        requires
            old(self).wf(),
            brain_tokens(old(self).system_brain) + delta_tokens + MESSAGE_OVERHEAD + total_tokens(
                old(self).msgs(),
            ) <= usize::MAX,
            brain_tokens(old(self).system_brain) + full_tokens + MESSAGE_OVERHEAD + total_tokens(
                old(self).msgs(),
            ) <= usize::MAX,
        ensures
            final(self).wf(),
            same_frame(*final(self), *old(self)),
            final(self).msgs() == match last_marker(old(self).msgs()) {
                Some(i) => after_delta(
                    old(self).msgs(),
                    i,
                    CountedV { text: delta_marker(summary@), tokens: delta_tokens as nat },
                ),
                None => seq![
                    user_text(
                        CountedV { text: full_marker(summary@), tokens: full_tokens as nat },
                    ),
                ],
            },
            final(self).msgs().len() > 0 && bears(final(self).msgs().last(), summary@),
            final(self).token_count == final(self).recount(),
            final(self).provider_anchor is None,
    {
        proof {
            law_marker_ends_with_its_summary(summary@, summary@);
        }
        match self.last_marker_index() {
            None => {
                proof {
                    lemma_keep_nothing(self.msgs());
                }
                self.compact_with_summary(summary, full_tokens, 0);
                assert(self.msgs() =~= seq![
                    user_text(
                        CountedV { text: full_marker(summary@), tokens: full_tokens as nat },
                    ),
                ]);
            },
            Some(idx) => {
                let ghost v = self.msgs();
                self.messages.truncate(idx + 1);
                let marker = Message::user(
                    Counted { text: delta_marker_text(summary), tokens: delta_tokens },
                );
                let ghost mv = marker@;
                self.messages.push(marker);
                assert(self.msgs() =~= v.take(idx + 1).push(mv));
                proof {
                    let kept_part = v.take(idx + 1);
                    lemma_total_piece(v, 0, idx + 1);
                    assert(v.subrange(0, idx + 1) =~= kept_part);
                    assert(kept_part.push(mv).drop_last() =~= kept_part);
                    lemma_user_text_tokens(
                        CountedV { text: delta_marker(summary@), tokens: delta_tokens as nat },
                    );
                }
                self.recount_tokens_after_compaction();
                self.provider_anchor = None;
            },
        }
    }

    /// Replaces everything from the first marker through the last with one
    /// consolidated marker. Without a marker this is a full-window compaction
    /// that keeps nothing.
    pub fn consolidate_segments(
        &mut self,
        summary: &str,
        consolidated_tokens: usize,
        full_tokens: usize,
    )
        requires
            old(self).wf(),
            brain_tokens(old(self).system_brain) + consolidated_tokens + MESSAGE_OVERHEAD
                + total_tokens(old(self).msgs()) <= usize::MAX,
            brain_tokens(old(self).system_brain) + full_tokens + MESSAGE_OVERHEAD + total_tokens(
                old(self).msgs(),
            ) <= usize::MAX,
        ensures
            final(self).wf(),
            same_frame(*final(self), *old(self)),
            final(self).msgs() == match first_marker(old(self).msgs()) {
                Some(i) => after_consolidation(
                    old(self).msgs(),
                    i,
                    last_marker(old(self).msgs())->0,
                    CountedV {
                        text: consolidated_marker(summary@),
                        tokens: consolidated_tokens as nat,
                    },
                ),
                None => seq![
                    user_text(
                        CountedV { text: full_marker(summary@), tokens: full_tokens as nat },
                    ),
                ],
            },
            exists|i: int|
                0 <= i < final(self).msgs().len() && bears(#[trigger] final(self).msgs()[i], summary@),
            final(self).token_count == final(self).recount(),
            final(self).provider_anchor is None,
    {
        let ghost v = self.msgs();
        proof {
            law_marker_ends_with_its_summary(summary@, summary@);
            lemma_first_marker(v);
            lemma_last_marker(v);
        }
        match (self.first_marker_index(), self.last_marker_index()) {
            (Some(first), Some(last)) => {
                let mut tail = self.messages.split_off(last + 1);
                assert(mviews(tail@) =~= v.skip(last + 1));
                self.messages.truncate(first);
                assert(self.msgs() =~= v.take(first as int));
                let marker = Message::user(
                    Counted {
                        text: consolidated_marker_text(summary),
                        tokens: consolidated_tokens,
                    },
                );
                let ghost mv = marker@;
                self.messages.push(marker);
                self.messages.append(&mut tail);
                assert(self.msgs() =~= v.take(first as int).push(mv) + v.skip(last + 1));
                assert(bears(self.msgs()[first as int], summary@));
                proof {
                    let a = v.take(first as int);
                    let b = v.skip(last + 1);
                    lemma_total_add(a.push(mv), b);
                    assert(a.push(mv).drop_last() =~= a);
                    lemma_total_piece(v, 0, first as int);
                    assert(v.subrange(0, first as int) =~= a);
                    lemma_total_piece(v, first as int, last + 1);
                    assert(v.subrange(last + 1, v.len() as int) =~= b);
                    lemma_user_text_tokens(
                        CountedV {
                            text: consolidated_marker(summary@),
                            tokens: consolidated_tokens as nat,
                        },
                    );
                }
                self.recount_tokens_after_compaction();
                self.provider_anchor = None;
            },
            _ => {
                proof {
                    lemma_keep_nothing(self.msgs());
                }
                self.compact_with_summary(summary, full_tokens, 0);
                assert(self.msgs() =~= seq![
                    user_text(
                        CountedV { text: full_marker(summary@), tokens: full_tokens as nat },
                    ),
                ]);
            },
        }
    }
}

/// The provider's count moved by the shift of the estimate, or the estimate.
pub open spec fn effective(anchor: Option<(usize, usize)>, count: usize) -> nat {
    match anchor {
        Some((reported, at)) => {
            let sum = if reported + count > usize::MAX {
                usize::MAX as nat
            } else {
                (reported + count) as nat
            };
            saturating_minus(sum, at as nat)
        },
        None => count as nat,
    }
}

/// The messages after the last marker; all of them where there is none.
pub open spec fn delta(ms: Seq<MessageV>) -> Seq<MessageV> {
    match last_marker(ms) {
        Some(i) => ms.skip(i + 1),
        None => ms,
    }
}

/// Tokens of everything through the last marker.
pub open spec fn segment_tokens(ms: Seq<MessageV>) -> nat {
    match last_marker(ms) {
        Some(i) => total_tokens(ms.take(i + 1)),
        None => 0,
    }
}

/// What a new compaction summarises.
pub open spec fn scope_of(ms: Seq<MessageV>, max_tokens: nat) -> CompactionScope {
    if last_marker(ms) is None {
        CompactionScope::FullWindow
    } else if segment_tokens(ms) > max_tokens / 2 {
        CompactionScope::SegmentConsolidation
    } else {
        CompactionScope::DeltaSinceMarker
    }
}

/// The text of every marker, in order.
pub open spec fn marker_texts(ms: Seq<MessageV>) -> Seq<Seq<char>>
    decreases ms.len(),
{
    if ms.len() == 0 {
        Seq::empty()
    } else {
        let init = marker_texts(ms.drop_last());
        if is_marker(ms.last()) {
            init.push(ms.last().content[0]->Text_0.text)
        } else {
            init
        }
    }
}

/// The messages once the delta behind marker `i` is replaced by a marker.
pub open spec fn after_delta(ms: Seq<MessageV>, i: int, marker: CountedV) -> Seq<MessageV> {
    ms.take(i + 1).push(user_text(marker))
}

/// The messages once markers `first` through `last` are replaced by one.
pub open spec fn after_consolidation(
    ms: Seq<MessageV>,
    first: int,
    last: int,
    marker: CountedV,
) -> Seq<MessageV> {
    ms.take(first).push(user_text(marker)) + ms.skip(last + 1)
}

// ------------------------------------------------------------------ lemmas
proof fn lemma_first_marker_prefix(ms: Seq<MessageV>, n: int)
    requires
        0 <= n <= ms.len(),
        first_marker(ms.take(n)) is Some,
    ensures
        first_marker(ms) == first_marker(ms.take(n)),
    decreases ms.len() - n,
{
    if n < ms.len() {
        assert(ms.take(n + 1).drop_last() =~= ms.take(n));
        lemma_first_marker_prefix(ms, n + 1);
    } else {
        assert(ms.take(n) =~= ms);
    }
}

proof fn lemma_row_messages_prefix(rows: Seq<RowV>, n: int)
    requires
        0 <= n <= rows.len(),
    ensures
        total_tokens(row_messages(rows.take(n))) <= total_tokens(row_messages(rows)),
    decreases rows.len() - n,
{
    if n < rows.len() {
        let a = row_messages(rows.take(n));
        assert(rows.take(n + 1).drop_last() =~= rows.take(n));
        if let Some(m) = row_message(rows[n]) {
            assert(row_messages(rows.take(n + 1)) == a.push(m));
            assert(a.push(m).drop_last() =~= a);
        }
        lemma_row_messages_prefix(rows, n + 1);
    } else {
        assert(rows.take(n) =~= rows);
    }
}

proof fn lemma_user_text_tokens(t: CountedV)
    ensures
        message_tokens(user_text(t)) == t.tokens + MESSAGE_OVERHEAD,
{
    reveal_with_fuel(blocks_tokens, 2);
    assert(user_text(t).content.drop_last() =~= Seq::<BlockV>::empty());
}

proof fn lemma_marker_cost(m: MessageV, k: Seq<MessageV>)
    requires
        m.content.len() == 1,
        m.content[0] is Text,
    ensures
        total_tokens(seq![m] + k) == m.content[0]->Text_0.tokens + MESSAGE_OVERHEAD
            + total_tokens(k),
{
    lemma_total_add(seq![m], k);
    lemma_total_one(m);
    let t = m.content[0]->Text_0;
    lemma_user_text_tokens(t);
    assert(m.content =~= user_text(t).content);
}

/// A zero budget keeps nothing.
proof fn lemma_keep_nothing(ms: Seq<MessageV>)
    ensures
        kept(ms, 0) == Seq::<MessageV>::empty(),
{
    assert(fitting(ms, 0) == 0);
    assert(ms.skip(ms.len() as int) =~= Seq::empty());
}

// -------------------------------------------------------------------- laws
/// The frozen segments never re-enter the summariser's input: the delta holds
/// no marker.
pub proof fn law_delta_holds_no_marker(ms: Seq<MessageV>)
    ensures
        forall|j: int| 0 <= j < delta(ms).len() ==> !is_marker(#[trigger] delta(ms)[j]),
{
    lemma_last_marker(ms);
    if let Some(i) = last_marker(ms) {
        assert forall|j: int| 0 <= j < delta(ms).len() implies !is_marker(
            #[trigger] delta(ms)[j],
        ) by {
            assert(delta(ms)[j] == ms[i + 1 + j]);
        }
    }
}

/// A delta compaction keeps every earlier segment as it is, in its place, and
/// its own marker becomes the last one.
pub proof fn law_delta_keeps_segments(ms: Seq<MessageV>, summary: Seq<char>, tokens: nat)
    requires
        last_marker(ms) is Some,
    ensures
        ({
            let i = last_marker(ms)->0;
            let after = after_delta(ms, i, CountedV { text: delta_marker(summary), tokens });
            &&& after.len() == i + 2
            &&& after.take(i + 1) == ms.take(i + 1)
            &&& last_marker(after) == Some(i + 1)
            &&& marker_texts(after) == marker_texts(ms).push(delta_marker(summary))
            &&& delta(after).len() == 0
        }),
{
    lemma_last_marker(ms);
    lemma_marker_texts(summary);
    let i = last_marker(ms)->0;
    let after = after_delta(ms, i, CountedV { text: delta_marker(summary), tokens });
    assert(after.take(i + 1) =~= ms.take(i + 1));
    assert(after.drop_last() =~= ms.take(i + 1));
    lemma_marker_texts_prefix(ms, i + 1);
}

proof fn lemma_marker_texts_prefix(ms: Seq<MessageV>, n: int)
    requires
        0 <= n <= ms.len(),
        forall|j: int| n <= j < ms.len() ==> !is_marker(#[trigger] ms[j]),
    ensures
        marker_texts(ms) == marker_texts(ms.take(n)),
    decreases ms.len() - n,
{
    if n < ms.len() {
        assert(ms.take(n + 1).drop_last() =~= ms.take(n));
        assert(!is_marker(ms[n]));
        lemma_marker_texts_prefix(ms, n + 1);
    } else {
        assert(ms.take(n) =~= ms);
    }
}

/// A consolidation leaves exactly one marker, its own; what stood before the
/// first marker and after the last stays as it is.
pub proof fn law_consolidation_leaves_one_marker(
    ms: Seq<MessageV>,
    summary: Seq<char>,
    tokens: nat,
)
    requires
        first_marker(ms) is Some,
    ensures
        ({
            let first = first_marker(ms)->0;
            let last = last_marker(ms)->0;
            let after = after_consolidation(
                ms,
                first,
                last,
                CountedV { text: consolidated_marker(summary), tokens },
            );
            &&& first <= last
            &&& first_marker(after) == Some(first)
            &&& last_marker(after) == Some(first)
            &&& after.take(first) == ms.take(first)
            &&& after.skip(first + 1) == ms.skip(last + 1)
        }),
{
    lemma_first_marker(ms);
    lemma_last_marker(ms);
    lemma_marker_texts(summary);
    let first = first_marker(ms)->0;
    let last = last_marker(ms)->0;
    let after = after_consolidation(
        ms,
        first,
        last,
        CountedV { text: consolidated_marker(summary), tokens },
    );
    assert(first <= last) by {
        assert(is_marker(ms[first]));
    }
    assert(after.take(first) =~= ms.take(first));
    assert(after.skip(first + 1) =~= ms.skip(last + 1));
    assert(is_marker(after[first]));
    assert forall|j: int| 0 <= j < first implies !is_marker(#[trigger] after[j]) by {
        assert(after[j] == ms[j]);
    }
    assert forall|j: int| first < j < after.len() implies !is_marker(#[trigger] after[j]) by {
        assert(after[j] == ms[last + (j - first)]);
    }
    lemma_first_marker(after);
    lemma_last_marker(after);
}

/// Trimming only drops messages from the front, and never leaves an orphaned
/// tool result in front.
pub proof fn law_trimming_drops_a_prefix(ms: Seq<MessageV>, count: nat, limit: int)
    ensures
        ({
            let (some, c) = shed(ms, count, limit, 0);
            let (left, n) = shed_orphans(some, c, 0);
            &&& left.len() <= some.len() <= ms.len()
            &&& left == ms.skip(ms.len() - left.len())
            &&& left.len() > 0 ==> !is_orphan(left[0])
            &&& c <= limit || some.len() == 0
            &&& n <= c <= count
        }),
{
    lemma_shed(ms, count, limit, 0);
    let (some, c) = shed(ms, count, limit, 0);
    lemma_shed_orphans(some, c, 0);
    let (left, n) = shed_orphans(some, c, 0);
    assert(some.skip(some.len() - left.len()) =~= ms.skip(ms.len() - left.len()));
}

/// Truncating only drops messages from the front. The most recent pair stays;
/// beyond it the count fits and no orphaned tool result is in front.
pub proof fn law_truncation_keeps_the_pair(ms: Seq<MessageV>, count: nat, target: nat)
    ensures
        ({
            let (left, n) = truncated(ms, count, target);
            &&& left.len() <= ms.len()
            &&& left == ms.skip(ms.len() - left.len())
            &&& ms.len() >= 2 ==> left.len() >= 2
            &&& left.len() > 2 ==> n <= target && !is_orphan(left[0])
            &&& n <= count
        }),
{
    lemma_shed(ms, count, target as int, 2);
    let (some, c) = shed(ms, count, target as int, 2);
    lemma_shed_orphans(some, c, pair(ms));
    let (left, n) = truncated(ms, count, target);
    assert(some.skip(some.len() - left.len()) =~= ms.skip(ms.len() - left.len()));
}

proof fn lemma_shed(ms: Seq<MessageV>, count: nat, limit: int, floor: nat)
    ensures
        ({
            let (some, c) = shed(ms, count, limit, floor);
            &&& some.len() <= ms.len()
            &&& some == ms.skip(ms.len() - some.len())
            &&& c <= limit || some.len() <= floor
            &&& ms.len() >= floor ==> some.len() >= floor
            &&& c <= count
            &&& count >= total_tokens(ms) ==> c - total_tokens(some) == count - total_tokens(ms)
        }),
    decreases ms.len(),
{
    if count > limit && ms.len() > floor {
        let next = saturating_minus(count, message_tokens(ms[0]));
        lemma_total_piece(ms, 1, ms.len() as int);
        assert(ms.subrange(1, ms.len() as int) =~= ms.drop_first());
        assert(ms.subrange(0, 1) =~= seq![ms[0]]);
        assert(ms.subrange(ms.len() as int, ms.len() as int) =~= Seq::empty());
        lemma_total_one(ms[0]);
        lemma_shed(ms.drop_first(), next, limit, floor);
        let some = shed(ms, count, limit, floor).0;
        assert(ms.drop_first().skip(ms.len() - 1 - some.len()) =~= ms.skip(ms.len() - some.len()));
    } else {
        assert(ms.skip(0) =~= ms);
    }
}

proof fn lemma_shed_orphans(ms: Seq<MessageV>, count: nat, floor: nat)
    ensures
        ({
            let (left, n) = shed_orphans(ms, count, floor);
            &&& left.len() <= ms.len()
            &&& ms.len() >= floor ==> left.len() >= floor
            &&& left == ms.skip(ms.len() - left.len())
            &&& left.len() > floor ==> !is_orphan(left[0])
            &&& n <= count
            &&& count >= total_tokens(ms) ==> n - total_tokens(left) == count - total_tokens(ms)
        }),
    decreases ms.len(),
{
    if ms.len() > floor && is_orphan(ms[0]) {
        let next = saturating_minus(count, message_tokens(ms[0]));
        lemma_total_piece(ms, 1, ms.len() as int);
        assert(ms.subrange(1, ms.len() as int) =~= ms.drop_first());
        assert(ms.subrange(0, 1) =~= seq![ms[0]]);
        assert(ms.subrange(ms.len() as int, ms.len() as int) =~= Seq::empty());
        lemma_total_one(ms[0]);
        lemma_shed_orphans(ms.drop_first(), next, floor);
        let left = shed_orphans(ms, count, floor).0;
        assert(ms.drop_first().skip(ms.len() - 1 - left.len()) =~= ms.skip(ms.len() - left.len()));
    } else {
        assert(ms.skip(0) =~= ms);
    }
}

/// The accounting stays exact: what a count holds beyond the messages (brain,
/// tracked files) is untouched by trimming and truncating.
pub proof fn law_trimming_accounts_exactly(ms: Seq<MessageV>, count: nat, limit: int, target: nat)
    requires
        count >= total_tokens(ms),
    ensures
        ({
            let (some, c) = shed(ms, count, limit, 0);
            let (left, n) = shed_orphans(some, c, 0);
            n - total_tokens(left) == count - total_tokens(ms)
        }),
        ({
            let (left, n) = truncated(ms, count, target);
            n - total_tokens(left) == count - total_tokens(ms)
        }),
{
    lemma_shed(ms, count, limit, 0);
    let (some, c) = shed(ms, count, limit, 0);
    lemma_shed_orphans(some, c, 0);
    lemma_shed(ms, count, target as int, 2);
    let (most, d) = shed(ms, count, target as int, 2);
    lemma_shed_orphans(most, d, pair(ms));
}

/// What a compaction keeps is the end of the conversation, does not start
/// with an orphan, and, beyond the most recent pair, fits the budget.
pub proof fn law_compaction_keeps_a_suffix(ms: Seq<MessageV>, budget: nat)
    ensures
        ({
            let k = kept(ms, budget);
            &&& k.len() <= ms.len()
            &&& k == ms.skip(ms.len() - k.len())
            &&& k.len() > 0 ==> !is_orphan(k[0])
            &&& k.len() > 2 ==> total_tokens(k) <= budget
            &&& budget == 0 ==> k.len() == 0
        }),
{
    lemma_fitting(ms, budget as int);
    let n = kept_count(ms, budget);
    let tail = ms.skip(ms.len() - n);
    lemma_without_leading_orphans(tail);
    let k = kept(ms, budget);
    assert(tail.skip(tail.len() - k.len()) =~= ms.skip(ms.len() - k.len()));
    if budget == 0 {
        lemma_keep_nothing(ms);
    }
}

/// The budget is for the kept messages alone: a conversation that fits it, and
/// does not start with an orphan, is kept whole, however long its summary is.
pub proof fn law_compaction_keeps_what_fits(ms: Seq<MessageV>, budget: nat)
    requires
        total_tokens(ms) <= budget,
        ms.len() > 0 ==> !is_orphan(ms[0]),
    ensures
        kept(ms, budget) == ms,
{
    lemma_fitting(ms, budget as int);
    let n = fitting(ms, budget as int);
    if n < ms.len() {
        let at = ms.len() - n - 1;
        lemma_total_piece(ms, at as int, ms.len() as int);
        assert(ms.subrange(at as int, ms.len() as int) =~= ms.skip(at as int));
    }
    assert(ms.skip(0) =~= ms);
}

/// Right after the provider reports a size, that size is the effective one;
/// from then on it moves with the estimate.
pub proof fn law_anchor(reported: usize, at: usize, count: usize)
    requires
        reported + at <= usize::MAX,
        reported + count <= usize::MAX,
        reported + count >= at,
    ensures
        effective(Some((reported, at)), at) == reported,
        effective(Some((reported, at)), count) == reported + count - at,
        effective(None, count) == count,
{
}

/// What a message costs: four tokens for its structure and, for each block,
/// the tokens of its text, of a tool's name and input together, or a thousand
/// for an image. The order of the blocks does not matter to the sum.
pub proof fn law_each_block_is_counted(role: Role, content: Seq<BlockV>, b: BlockV)
    ensures
        message_tokens(MessageV { role, content: Seq::empty() }) == 4,
        message_tokens(MessageV { role, content: content.push(b) }) - message_tokens(
            MessageV { role, content },
        ) == match b {
            BlockV::Text(t) => t.tokens as int,
            BlockV::ToolUse { id, name, input } => (name.tokens + input.tokens) as int,
            BlockV::ToolResult { id, content: c, is_error } => c.tokens as int,
            BlockV::Image { source } => 1000,
            BlockV::Thinking { text, signature } => text.tokens as int,
        },
{
    assert(content.push(b).drop_last() =~= content);
}

/// A run of messages costs what its messages cost together.
pub proof fn law_messages_add_up(a: Seq<MessageV>, b: Seq<MessageV>, m: MessageV)
    ensures
        total_tokens(Seq::empty()) == 0,
        total_tokens(seq![m]) == message_tokens(m),
        total_tokens(a + b) == total_tokens(a) + total_tokens(b),
{
    lemma_total_one(m);
    lemma_total_add(a, b);
}

/// Which messages are left without their tool use: those of the user with
/// tool results and nothing else.
pub proof fn law_orphans_hold_results_alone(m: MessageV, i: int)
    ensures
        m.role != Role::User ==> !is_orphan(m),
        m.content.len() == 0 ==> !is_orphan(m),
        0 <= i < m.content.len() && !(m.content[i] is ToolResult) ==> !is_orphan(m),
        m.role == Role::User && m.content.len() > 0 && (forall|j: int|
            0 <= j < m.content.len() ==> m.content[j] is ToolResult) ==> is_orphan(m),
{
}

/// Which messages are markers: a user's message that opens with a text that
/// starts with the marker prefix.
pub proof fn law_markers_open_with_the_prefix(m: MessageV, rest: Seq<char>, tokens: nat)
    ensures
        m.role != Role::User ==> !is_marker(m),
        m.content.len() > 0 && !(m.content[0] is Text) ==> !is_marker(m),
        is_marker(m) ==> has_prefix(m.content[0]->Text_0.text, "[CONTEXT COMPACTION"@),
        is_marker(user_text(CountedV { text: "[CONTEXT COMPACTION"@ + rest, tokens })),
{
    let p = "[CONTEXT COMPACTION"@;
    assert((p + rest).subrange(0, p.len() as int) =~= p);
}

proof fn lemma_marker_texts_add(a: Seq<MessageV>, b: Seq<MessageV>)
    ensures
        marker_texts(a + b) == marker_texts(a) + marker_texts(b),
    decreases b.len(),
{
    if b.len() == 0 {
        assert(a + b =~= a);
        assert(marker_texts(a) + marker_texts(b) =~= marker_texts(a));
    } else {
        assert((a + b).drop_last() =~= a + b.drop_last());
        lemma_marker_texts_add(a, b.drop_last());
        assert(marker_texts(a + b) =~= marker_texts(a) + marker_texts(b));
    }
}

/// A consolidation is given the text of every marker, once, in order, and of
/// nothing else.
pub proof fn law_every_marker_is_consolidated(a: Seq<MessageV>, m: MessageV, b: Seq<MessageV>)
    ensures
        marker_texts(a + b) == marker_texts(a) + marker_texts(b),
        is_marker(m) ==> marker_texts(a.push(m) + b) == marker_texts(a).push(
            m.content[0]->Text_0.text,
        ) + marker_texts(b),
        !is_marker(m) ==> marker_texts(a.push(m) + b) == marker_texts(a) + marker_texts(b),
{
    lemma_marker_texts_add(a, b);
    lemma_marker_texts_add(a.push(m), b);
    assert(a.push(m).drop_last() =~= a);
}

/// What a compaction summarises: everything where no marker stands in the
/// window; else, with the last marker at `i`, what follows it, or the markers
/// where everything through it takes more than half the window.
pub proof fn law_scope(ms: Seq<MessageV>, max_tokens: nat, i: int)
    ensures
        (forall|j: int| 0 <= j < ms.len() ==> !is_marker(#[trigger] ms[j])) ==> scope_of(
            ms,
            max_tokens,
        ) == CompactionScope::FullWindow && delta(ms) == ms,
        0 <= i < ms.len() && is_marker(ms[i]) && (forall|j: int|
            i < j < ms.len() ==> !is_marker(#[trigger] ms[j])) ==> delta(ms) == ms.skip(i + 1)
            && segment_tokens(ms) + total_tokens(delta(ms)) == total_tokens(ms) && scope_of(
            ms,
            max_tokens,
        ) == if total_tokens(ms.take(i + 1)) > max_tokens / 2 {
            CompactionScope::SegmentConsolidation
        } else {
            CompactionScope::DeltaSinceMarker
        },
{
    lemma_last_marker(ms);
    if 0 <= i < ms.len() && is_marker(ms[i]) && (forall|j: int|
        i < j < ms.len() ==> !is_marker(#[trigger] ms[j])) {
        let k = last_marker(ms)->0;
        assert(is_marker(ms[k]));
        assert(k == i);
        lemma_total_add(ms.take(i + 1), ms.skip(i + 1));
        assert(ms.take(i + 1) + ms.skip(i + 1) =~= ms);
    }
}

/// A compaction drops no more than it must: messages at the end that fit the
/// budget together are kept, from the first of them that is no orphan; so are
/// the last two where the budget is not zero.
pub proof fn law_compaction_keeps_all_that_fits(ms: Seq<MessageV>, budget: nat, n: nat)
    requires
        0 < n <= ms.len(),
        !is_orphan(ms[ms.len() - n]),
        total_tokens(ms.skip(ms.len() - n)) <= budget || (n <= 2 && budget > 0),
    ensures
        kept(ms, budget).len() >= n,
{
    lemma_fitting(ms, budget as int);
    let fit = fitting(ms, budget as int);
    if fit < n && total_tokens(ms.skip(ms.len() - n)) <= budget {
        let more = ms.skip(ms.len() - n);
        lemma_total_piece(more, n - fit - 1, n as int);
        assert(more.subrange(n - fit - 1, n as int) =~= ms.skip(ms.len() - fit - 1));
    }
    let k = kept_count(ms, budget);
    assert(k >= n);
    lemma_orphans_stop(ms.skip(ms.len() - k), k - n);
}

proof fn lemma_orphans_stop(ms: Seq<MessageV>, i: int)
    requires
        0 <= i < ms.len(),
        !is_orphan(ms[i]),
    ensures
        without_leading_orphans(ms).len() >= ms.len() - i,
    decreases ms.len(),
{
    if is_orphan(ms[0]) {
        lemma_orphans_stop(ms.drop_first(), i - 1);
    }
}

proof fn lemma_shed_stops(ms: Seq<MessageV>, count: nat, limit: int, floor: nat, k: nat)
    requires
        k <= ms.len(),
        count >= total_tokens(ms),
        count - total_tokens(ms.take(k as int)) <= limit,
    ensures
        shed(ms, count, limit, floor).0.len() >= ms.len() - k,
    decreases ms.len(),
{
    if count > limit && ms.len() > floor {
        assert(ms.take(0) =~= Seq::empty());
        let c = message_tokens(ms[0]);
        lemma_total_one(ms[0]);
        lemma_total_add(seq![ms[0]], ms.drop_first());
        assert(seq![ms[0]] + ms.drop_first() =~= ms);
        lemma_total_add(seq![ms[0]], ms.drop_first().take(k - 1));
        assert(seq![ms[0]] + ms.drop_first().take(k - 1) =~= ms.take(k as int));
        lemma_shed_stops(ms.drop_first(), (count - c) as nat, limit, floor, (k - 1) as nat);
    }
}

proof fn lemma_shed_orphans_stops(ms: Seq<MessageV>, count: nat, floor: nat, i: int)
    requires
        0 <= i < ms.len(),
        !is_orphan(ms[i]),
    ensures
        shed_orphans(ms, count, floor).0.len() >= ms.len() - i,
    decreases ms.len(),
{
    if ms.len() > floor && is_orphan(ms[0]) {
        lemma_shed_orphans_stops(
            ms.drop_first(),
            saturating_minus(count, message_tokens(ms[0])),
            floor,
            i - 1,
        );
    }
}

/// Trimming and truncating drop no more than they must: where the context fits
/// once `k` messages are gone, and the next is no orphan, that one and all
/// after it stay. One that fits as it is stays whole.
pub proof fn law_trimming_drops_no_more_than_it_must(
    ms: Seq<MessageV>,
    count: nat,
    limit: int,
    k: nat,
)
    requires
        k < ms.len(),
        count >= total_tokens(ms),
        count - total_tokens(ms.take(k as int)) <= limit,
        !is_orphan(ms[k as int]),
    ensures
        ({
            let (some, c) = shed(ms, count, limit, 0);
            shed_orphans(some, c, 0).0.len() >= ms.len() - k
        }),
        limit >= 0 ==> truncated(ms, count, limit as nat).0.len() >= ms.len() - k,
{
    lemma_shed(ms, count, limit, 0);
    lemma_shed(ms, count, limit, 2);
    lemma_shed_stops(ms, count, limit, 0, k);
    lemma_shed_stops(ms, count, limit, 2, k);
    let (a, c) = shed(ms, count, limit, 0);
    let (b, d) = shed(ms, count, limit, 2);
    lemma_shed_orphans_stops(a, c, 0, a.len() - (ms.len() - k));
    lemma_shed_orphans_stops(b, d, pair(ms), b.len() - (ms.len() - k));
}

proof fn lemma_row_messages_add(a: Seq<RowV>, b: Seq<RowV>)
    ensures
        row_messages(a + b) == row_messages(a) + row_messages(b),
    decreases b.len(),
{
    if b.len() == 0 {
        assert(a + b =~= a);
        assert(row_messages(a) + row_messages(b) =~= row_messages(a));
    } else {
        assert((a + b).drop_last() =~= a + b.drop_last());
        lemma_row_messages_add(a, b.drop_last());
        assert(row_messages(a + b) =~= row_messages(a) + row_messages(b));
    }
}

/// A stored conversation comes back row by row, in order: a row's text is the
/// last block of its message, under the role it was stored with. An
/// assistant's reasoning stands before the text. A row with neither text nor
/// reasoning gives no message.
pub proof fn law_rows_come_back(a: Seq<RowV>, row: RowV, b: Seq<RowV>)
    ensures
        row.content.text.len() > 0 || has_thinking(row) ==> ({
            let all = row_messages(a.push(row) + b);
            let m = all[row_messages(a).len() as int];
            &&& all == row_messages(a).push(m) + row_messages(b)
            &&& (m.role == Role::Assistant <==> row.role == "assistant"@)
            &&& (m.role == Role::System <==> row.role == "system"@)
            &&& row.content.text.len() > 0 ==> m.content.len() > 0 && m.content.last()
                == BlockV::Text(row.content)
            &&& m.role == Role::Assistant && has_thinking(row) ==> m.content.len() > 0
                && m.content[0] == (BlockV::Thinking { text: row.thinking->0, signature: None })
            &&& !(m.role == Role::Assistant && has_thinking(row)) ==> m.content == seq![
                BlockV::Text(row.content),
            ] || row.content.text.len() == 0
        }),
        row.content.text.len() == 0 && !has_thinking(row) ==> row_messages(a.push(row) + b)
            == row_messages(a) + row_messages(b),
        row.thinking is None ==> !has_thinking(row),
        row.thinking is Some ==> (has_thinking(row) <==> trimmed(row.thinking->0.text).len() > 0),
{
    reveal_strlit("assistant");
    reveal_strlit("system");
    lemma_row_messages_add(a.push(row), b);
    assert(a.push(row).drop_last() =~= a);
    if let Some(m) = row_message(row) {
        let all = row_messages(a.push(row) + b);
        assert(row_messages(a.push(row)) == row_messages(a).push(m));
        assert(all[row_messages(a).len() as int] == m);
        assert("assistant"@.len() == 9 && "system"@.len() == 6);
        if !(m.role == Role::Assistant && has_thinking(row)) && row.content.text.len() > 0 {
            assert(m.content =~= seq![BlockV::Text(row.content)]);
        }
    }
}

/// What the operations on messages keep: the session, its brain, its files and
/// its limit.
pub proof fn law_frame_is_kept(a: AgentContext, b: AgentContext)
    ensures
        same_frame(a, b) <==> a.session_id == b.session_id && a.system_brain == b.system_brain
            && a.tracked_files == b.tracked_files && a.max_tokens == b.max_tokens,
        same_frame(a, a),
{
}

} // verus!
