//! Newsletter polling: which posts are new, how the cursor moves, and the
//! digest for the owner.
use vstd::prelude::*;

use crate::clock::{format_utc, utc_text};
use crate::search::{dec_u64, dec_usize, decimal, lemma_tells, tells};
use crate::sort::{insert_by_rank, is_sorted, lemma_sorted, sorted, Ranked};
use crate::text::{cat2, cat5};

verus! {

/// Seconds between two polls.
pub const POLL_INTERVAL_SECS: u64 = 900;

/// Posts fetched per page, newest first.
pub const POLL_PAGE_SIZE: usize = 30;

/// Pages followed within one tick while the whole page stays unseen.
pub const POLL_MAX_PAGES: usize = 10;

/// The cursor of a channel: the newest digested post's id and Unix seconds.
#[derive(Clone, Copy, PartialEq, Eq, Structural, Debug)]
pub struct Cursor {
    pub last_server_id: i64,
    pub last_ts: i64,
}

/// A fetched post, reduced to what the poll decides by.
#[derive(Clone, Copy, PartialEq, Eq, Structural, Debug)]
pub struct PostRef {
    pub server_id: u64,
    pub ts: u64,
}

impl Ranked for PostRef {
    open spec fn rank(&self) -> nat {
        self.server_id as nat
    }

    fn get_rank(&self) -> u64 {
        self.server_id
    }
}

/// `n` as the signed number of the same 64 bits.
pub open spec fn signed(n: u64) -> int {
    if n > i64::MAX {
        n - 0x1_0000_0000_0000_0000
    } else {
        n as int
    }
}

/// The signed number of the same 64 bits.
pub fn to_signed(n: u64) -> (r: i64)
    ensures
        r == signed(n),
{
    if n > i64::MAX as u64 {
        -((u64::MAX - n) as i64) - 1
    } else {
        n as i64
    }
}

/// The posts with an id above the cursor's, in the order they came.
pub open spec fn newer(last: int, posts: Seq<PostRef>) -> Seq<PostRef>
    decreases posts.len(),
{
    if posts.len() == 0 {
        Seq::empty()
    } else if signed(posts.last().server_id) > last {
        newer(last, posts.drop_last()).push(posts.last())
    } else {
        newer(last, posts.drop_last())
    }
}

/// The posts strictly newer than the cursor, oldest first; none at first sight.
pub open spec fn fresh(cur: Option<Cursor>, posts: Seq<PostRef>) -> Seq<PostRef> {
    match cur {
        Some(c) => sorted(newer(c.last_server_id as int, posts)),
        None => Seq::empty(),
    }
}

/// Posts strictly newer than the cursor, oldest first. An absent cursor means
/// first sight: nothing is new.
pub fn select_new(cur: Option<Cursor>, posts: &Vec<PostRef>) -> (r: Vec<PostRef>)
    ensures
        r@ == fresh(cur, posts@),
{
    let mut out: Vec<PostRef> = Vec::new();
    match cur {
        Some(c) => {
            let mut i: usize = 0;
            assert(posts@.take(0) =~= Seq::empty());
            let ghost last = c.last_server_id as int;
            while i < posts.len()
                invariant
                    i <= posts.len(),
                    last == c.last_server_id,
                    out@ == sorted(newer(last, posts@.take(i as int))),
                decreases posts.len() - i,
            {
                assert(posts@.take(i + 1).drop_last() =~= posts@.take(i as int));
                if to_signed(posts[i].server_id) > c.last_server_id {
                    proof {
                        let n = newer(last, posts@.take(i as int));
                        assert(n.push(posts@[i as int]).drop_last() =~= n);
                    }
                    insert_by_rank(&mut out, posts[i]);
                }
                i = i + 1;
            }
            assert(posts@.take(i as int) =~= posts@);
        },
        None => {
            assert(out@ =~= Seq::empty());
        },
    }
    out
}

/// The post with the greatest id; of equals the last.
pub open spec fn newest_post(posts: Seq<PostRef>) -> Option<PostRef>
    decreases posts.len(),
{
    if posts.len() == 0 {
        None
    } else {
        match newest_post(posts.drop_last()) {
            Some(p) => if p.server_id > posts.last().server_id {
                Some(p)
            } else {
                Some(posts.last())
            },
            None => Some(posts.last()),
        }
    }
}

/// The cursor after a tick: that of the newest post, never behind the old
/// one; without either, an explicit zero.
pub open spec fn advanced(cur: Option<Cursor>, posts: Seq<PostRef>) -> (int, int) {
    match (cur, newest_post(posts)) {
        (Some(c), Some(p)) => if signed(p.server_id) >= c.last_server_id {
            (signed(p.server_id), signed(p.ts))
        } else {
            (c.last_server_id as int, c.last_ts as int)
        },
        (Some(c), None) => (c.last_server_id as int, c.last_ts as int),
        (None, Some(p)) => (signed(p.server_id), signed(p.ts)),
        (None, None) => (0, 0),
    }
}

/// The cursor to persist after a tick.
pub fn next_cursor(cur: Option<Cursor>, posts: &Vec<PostRef>) -> (r: Cursor)
    ensures
        (r.last_server_id as int, r.last_ts as int) == advanced(cur, posts@),
{
    let mut best: Option<PostRef> = None;
    let mut i: usize = 0;
    assert(posts@.take(0) =~= Seq::empty());
    while i < posts.len()
        invariant
            i <= posts.len(),
            best == newest_post(posts@.take(i as int)),
        decreases posts.len() - i,
    {
        assert(posts@.take(i + 1).drop_last() =~= posts@.take(i as int));
        best = match best {
            Some(p) => if p.server_id > posts[i].server_id {
                Some(p)
            } else {
                Some(posts[i])
            },
            None => Some(posts[i]),
        };
        i = i + 1;
    }
    assert(posts@.take(i as int) =~= posts@);
    match (cur, best) {
        (Some(c), Some(p)) => if to_signed(p.server_id) >= c.last_server_id {
            Cursor { last_server_id: to_signed(p.server_id), last_ts: to_signed(p.ts) }
        } else {
            c
        },
        (Some(c), None) => c,
        (None, Some(p)) => Cursor {
            last_server_id: to_signed(p.server_id),
            last_ts: to_signed(p.ts),
        },
        (None, None) => Cursor { last_server_id: 0, last_ts: 0 },
    }
}

// -------------------------------------------------------------- the digest
/// The format of a post's time.
pub open spec fn minute_format() -> Seq<char> {
    "%Y-%m-%d %H:%M"@
}

/// One line of a digest, given how the time of the post renders.
pub open spec fn digest_line(when: Option<Seq<char>>, ts: u64, text: Seq<char>) -> Seq<char> {
    "\n["@ + (match when {
        Some(w) => w,
        None => decimal(ts as nat) + "s"@,
    }) + "] "@ + text + "\n"@
}

/// One line of a digest, given how the time of the post renders.
pub fn line_of_digest(when: Option<String>, ts: u64, text: &str) -> (r: String)
    ensures
        r@ == digest_line(
            match when {
                Some(w) => Some(w@),
                None => None,
            },
            ts,
            text@,
        ),
{
    let shown = match when {
        Some(w) => w,
        None => cat2(dec_u64(ts).as_str(), "s"),
    };
    cat5("\n[", shown.as_str(), "] ", text, "\n")
}

/// The lines of the first `n` posts.
pub open spec fn digest_lines(posts: Seq<PostRef>, texts: Seq<String>, n: int) -> Seq<char>
    decreases n,
{
    if n <= 0 {
        Seq::empty()
    } else {
        digest_lines(posts, texts, n - 1) + digest_line(
            utc_text(signed(posts[n - 1].ts), minute_format()),
            posts[n - 1].ts,
            texts[n - 1]@,
        )
    }
}

pub open spec fn shorter(a: nat, b: nat) -> nat {
    if a < b {
        a
    } else {
        b
    }
}

/// The digest: a title that names the channel, then one line per post.
pub open spec fn digest_text(name: Seq<char>, posts: Seq<PostRef>, texts: Seq<String>) -> Seq<char> {
    "📰 WhatsApp newsletter digest — "@ + name + " ("@ + decimal(posts.len()) + " new)\n"@
        + digest_lines(posts, texts, shorter(posts.len(), texts.len()) as int)
}

/// The digest sent to the owner.
pub fn format_digest(channel_name: &str, posts: &Vec<PostRef>, texts: &Vec<String>) -> (r: String)
    ensures
        r@ == digest_text(channel_name@, posts@, texts@),
{
    let head = cat5(
        "📰 WhatsApp newsletter digest — ",
        channel_name,
        " (",
        dec_usize(posts.len()).as_str(),
        " new)\n",
    );
    let mut lines = String::new();
    let mut i: usize = 0;
    while i < posts.len() && i < texts.len()
        invariant
            i <= posts.len(),
            i <= texts.len(),
            lines@ == digest_lines(posts@, texts@, i as int),
        decreases posts.len() - i,
    {
        let when = format_utc(to_signed(posts[i].ts), "%Y-%m-%d %H:%M");
        lines.append(line_of_digest(when, posts[i].ts, texts[i].as_str()).as_str());
        i = i + 1;
    }
    cat2(head.as_str(), lines.as_str())
}

// --------------------------------------------------------------- one tick
/// The texts a post can carry.
pub struct PostContent {
    pub conversation: Option<String>,
    pub extended_text: Option<String>,
    pub image_caption: Option<String>,
    pub video_caption: Option<String>,
}

/// A fetched post.
pub struct Fetched {
    pub server_id: u64,
    pub ts: u64,
    pub content: Option<PostContent>,
}

/// The text, where there is one and it is not empty.
pub open spec fn filled(s: Option<String>) -> bool {
    s is Some && s->0@.len() > 0
}

/// The text of a post: plain, extended, then captioned media.
pub open spec fn body_text(c: PostContent) -> Seq<char> {
    if filled(c.conversation) {
        c.conversation->0@
    } else if filled(c.extended_text) {
        c.extended_text->0@
    } else if filled(c.image_caption) {
        "📷 "@ + c.image_caption->0@
    } else if filled(c.video_caption) {
        "🎥 "@ + c.video_caption->0@
    } else {
        "[media post]"@
    }
}

/// The text of a post.
pub fn post_body(c: &PostContent) -> (r: String)
    ensures
        r@ == body_text(*c),
{
    if let Some(t) = &c.conversation {
        if !t.as_str().is_empty() {
            return t.clone();
        }
    }
    if let Some(t) = &c.extended_text {
        if !t.as_str().is_empty() {
            return t.clone();
        }
    }
    if let Some(t) = &c.image_caption {
        if !t.as_str().is_empty() {
            return cat2("📷 ", t.as_str());
        }
    }
    if let Some(t) = &c.video_caption {
        if !t.as_str().is_empty() {
            return cat2("🎥 ", t.as_str());
        }
    }
    "[media post]".to_owned()
}

pub open spec fn refs_of(fetched: Seq<Fetched>) -> Seq<PostRef> {
    fetched.map_values(|f: Fetched| PostRef { server_id: f.server_id, ts: f.ts })
}

/// The fetched posts, reduced to what the poll decides by.
pub fn post_refs(fetched: &Vec<Fetched>) -> (r: Vec<PostRef>)
    ensures
        r@ == refs_of(fetched@),
{
    let mut out: Vec<PostRef> = Vec::new();
    let mut i: usize = 0;
    while i < fetched.len()
        invariant
            i <= fetched.len(),
            out@ == refs_of(fetched@.take(i as int)),
        decreases fetched.len() - i,
    {
        out.push(PostRef { server_id: fetched[i].server_id, ts: fetched[i].ts });
        assert(refs_of(fetched@.take(i + 1)) =~= refs_of(fetched@.take(i as int)).push(
            refs_of(fetched@)[i as int],
        ));
        i = i + 1;
    }
    assert(fetched@.take(i as int) =~= fetched@);
    out
}

/// The text of the first fetched post with that id.
pub open spec fn text_for(fetched: Seq<Fetched>, id: u64) -> Seq<char>
    decreases fetched.len(),
{
    if fetched.len() == 0 {
        "[post without text]"@
    } else if fetched[0].server_id == id {
        match fetched[0].content {
            Some(c) => body_text(c),
            None => "[post without text]"@,
        }
    } else {
        text_for(fetched.drop_first(), id)
    }
}

/// The text of the first fetched post with that id.
pub fn find_text(fetched: &Vec<Fetched>, id: u64) -> (r: String)
    ensures
        r@ == text_for(fetched@, id),
{
    let mut i: usize = 0;
    assert(fetched@.skip(0) =~= fetched@);
    while i < fetched.len()
        invariant
            i <= fetched.len(),
            text_for(fetched@, id) == text_for(fetched@.skip(i as int), id),
        decreases fetched.len() - i,
    {
        assert(fetched@.skip(i as int)[0] == fetched@[i as int]);
        if fetched[i].server_id == id {
            return match &fetched[i].content {
                Some(c) => post_body(c),
                None => "[post without text]".to_owned(),
            };
        }
        assert(fetched@.skip(i as int).drop_first() =~= fetched@.skip(i + 1));
        i = i + 1;
    }
    "[post without text]".to_owned()
}

/// A post collected for the digest.
pub struct Digested {
    pub post: PostRef,
    pub text: String,
}

impl Ranked for Digested {
    open spec fn rank(&self) -> nat {
        self.post.server_id as nat
    }

    fn get_rank(&self) -> u64 {
        self.post.server_id
    }
}

/// The smallest timestamp.
pub open spec fn oldest_ts(posts: Seq<PostRef>) -> Option<u64>
    decreases posts.len(),
{
    if posts.len() == 0 {
        None
    } else {
        match oldest_ts(posts.drop_last()) {
            Some(t) => if posts.last().ts < t {
                Some(posts.last().ts)
            } else {
                Some(t)
            },
            None => Some(posts.last().ts),
        }
    }
}

fn min_ts(posts: &Vec<PostRef>) -> (r: Option<u64>)
    ensures
        r == oldest_ts(posts@),
{
    let mut best: Option<u64> = None;
    let mut i: usize = 0;
    assert(posts@.take(0) =~= Seq::empty());
    while i < posts.len()
        invariant
            i <= posts.len(),
            best == oldest_ts(posts@.take(i as int)),
        decreases posts.len() - i,
    {
        assert(posts@.take(i + 1).drop_last() =~= posts@.take(i as int));
        best = match best {
            Some(t) => if posts[i].ts < t {
                Some(posts[i].ts)
            } else {
                Some(t)
            },
            None => Some(posts[i].ts),
        };
        i = i + 1;
    }
    assert(posts@.take(i as int) =~= posts@);
    best
}

/// What a tick does after a page.
#[derive(Clone, Copy, PartialEq, Eq, Structural, Debug)]
pub enum PageStep {
    /// Everything new has been seen.
    Stop,
    /// The whole page was unseen: fetch the page before it.
    More,
    /// Still unseen posts below, but the page limit is reached.
    Overflow,
}

/// One tick's progress through a channel's pages.
pub struct PollRun {
    pub cur: Cursor,
    pub digested: Vec<Digested>,
    /// Fetch posts older than this.
    pub before: Option<u64>,
    /// Pages taken so far.
    pub pages: usize,
}

/// What a page adds to the digest.
pub open spec fn collected(posts: Seq<PostRef>, fetched: Seq<Fetched>, out: Seq<Digested>) -> bool {
    &&& out.len() == posts.len()
    &&& forall|i: int|
        0 <= i < out.len() ==> (#[trigger] out[i]).post == posts[i] && out[i].text@ == text_for(
            fetched,
            posts[i].server_id,
        )
}

impl PollRun {
    pub fn new(cur: Cursor) -> (r: Self)
        ensures
            r.cur == cur,
            r.digested@.len() == 0,
            r.before is None,
            r.pages == 0,
    {
        PollRun { cur, digested: Vec::new(), before: None, pages: 0 }
    }

    /// Takes one fetched page: collects its new posts and decides whether to
    /// go on. The first page that touches known posts proves there is no more
    /// below.
    pub fn take_page(&mut self, fetched: &Vec<Fetched>) -> (r: PageStep)
        requires
            old(self).pages < POLL_MAX_PAGES,
        ensures
            final(self).cur == old(self).cur,
            final(self).pages == old(self).pages + 1,
            final(self).digested@.len() >= old(self).digested@.len(),
            final(self).digested@.take(old(self).digested@.len() as int) == old(self).digested@,
            ({
                let new = fresh(Some(old(self).cur), refs_of(fetched@));
                let whole = new.len() > 0 && new.len() == fetched@.len() && fetched@.len()
                    == POLL_PAGE_SIZE;
                &&& collected(
                    new,
                    fetched@,
                    final(self).digested@.skip(old(self).digested@.len() as int),
                )
                &&& final(self).before == if whole {
                    oldest_ts(refs_of(fetched@))
                } else {
                    old(self).before
                }
                &&& r == if !whole {
                    PageStep::Stop
                } else if old(self).pages + 1 < POLL_MAX_PAGES {
                    PageStep::More
                } else {
                    PageStep::Overflow
                }
            }),
    {
        self.pages = self.pages + 1;
        let refs = post_refs(fetched);
        let new = select_new(Some(self.cur), &refs);
        let ghost start = self.digested@;
        let mut i: usize = 0;
        while i < new.len()
            invariant
                i <= new.len(),
                self.cur == old(self).cur,
                self.pages == old(self).pages + 1,
                self.before == old(self).before,
                self.digested@.len() == start.len() + i,
                self.digested@.take(start.len() as int) == start,
                forall|k: int|
                    0 <= k < i ==> (#[trigger] self.digested@[start.len() + k]).post == new@[k]
                        && self.digested@[start.len() + k].text@ == text_for(
                        fetched@,
                        new@[k].server_id,
                    ),
            decreases new.len() - i,
        {
            let text = find_text(fetched, new[i].server_id);
            let ghost pre = self.digested@;
            self.digested.push(Digested { post: new[i], text });
            assert(self.digested@.take(start.len() as int) =~= pre.take(start.len() as int));
            assert forall|k: int| 0 <= k < i implies (#[trigger] self.digested@[start.len()
                + k]).post == new@[k] && self.digested@[start.len() + k].text@ == text_for(
                fetched@,
                new@[k].server_id,
            ) by {
                assert(self.digested@[start.len() + k] == pre[start.len() + k]);
            }
            i = i + 1;
        }
        proof {
            let tail = self.digested@.skip(start.len() as int);
            assert forall|k: int| 0 <= k < tail.len() implies (#[trigger] tail[k]).post == new@[k]
                && tail[k].text@ == text_for(fetched@, new@[k].server_id) by {
                assert(tail[k] == self.digested@[start.len() + k]);
            }
        }
        if new.len() > 0 && new.len() == refs.len() && refs.len() == POLL_PAGE_SIZE {
            self.before = min_ts(&refs);
            if self.pages < POLL_MAX_PAGES {
                PageStep::More
            } else {
                PageStep::Overflow
            }
        } else {
            PageStep::Stop
        }
    }

    /// The posts of the digest, oldest first, and their texts; `None` where
    /// nothing is new.
    pub fn finish(self) -> (r: Option<(Vec<PostRef>, Vec<String>)>)
        ensures
            match r {
                Some((posts, texts)) => {
                    &&& self.digested@.len() > 0
                    &&& posts@ == sorted(self.digested@).map_values(|d: Digested| d.post)
                    &&& texts@ == sorted(self.digested@).map_values(|d: Digested| d.text)
                },
                None => self.digested@.len() == 0,
            },
    {
        if self.digested.len() == 0 {
            return None;
        }
        let mut pending = self.digested;
        let ghost all = pending@;
        // Entries leave from the end; `back` holds them in reverse.
        let mut back: Vec<Digested> = Vec::new();
        while pending.len() > 0
            invariant
                pending@ + back@.reverse() == all,
            decreases pending@.len(),
        {
            let ghost p0 = pending@;
            let ghost b0 = back@;
            if let Some(d) = pending.pop() {
                back.push(d);
                assert(pending@ + back@.reverse() =~= p0 + b0.reverse());
            }
        }
        assert(back@.reverse() =~= all);
        let mut order: Vec<Digested> = Vec::new();
        let ghost mut done = Seq::<Digested>::empty();
        while back.len() > 0
            invariant
                done + back@.reverse() == all,
                order@ == sorted(done),
            decreases back@.len(),
        {
            let ghost b0 = back@;
            if let Some(d) = back.pop() {
                proof {
                    assert(done.push(d) + back@.reverse() =~= done + b0.reverse());
                    assert(done.push(d).drop_last() =~= done);
                    done = done.push(d);
                }
                insert_by_rank(&mut order, d);
            }
        }
        assert(done =~= all);
        let mut posts: Vec<PostRef> = Vec::new();
        let mut texts: Vec<String> = Vec::new();
        let mut i: usize = 0;
        while i < order.len()
            invariant
                i <= order.len(),
                posts@ == order@.map_values(|d: Digested| d.post).take(i as int),
                texts@ == order@.map_values(|d: Digested| d.text).take(i as int),
            decreases order.len() - i,
        {
            posts.push(order[i].post);
            texts.push(order[i].text.clone());
            assert(posts@ =~= order@.map_values(|d: Digested| d.post).take(i + 1));
            assert(texts@ =~= order@.map_values(|d: Digested| d.text).take(i + 1));
            i = i + 1;
        }
        assert(posts@ =~= order@.map_values(|d: Digested| d.post));
        assert(texts@ =~= order@.map_values(|d: Digested| d.text));
        Some((posts, texts))
    }
}

// -------------------------------------------------------------------- laws
/// Flipping a channel on replays nothing: at first sight no post is new.
pub proof fn law_first_sight_is_silent(posts: Seq<PostRef>)
    ensures
        fresh(None, posts).len() == 0,
{
}

/// The cursor never regresses: where no post is newer, but at most the one it
/// stands on is seen again, it stays where it is.
pub proof fn law_cursor_never_regresses(cur: Cursor, posts: Seq<PostRef>)
    ensures
        advanced(Some(cur), posts).0 >= cur.last_server_id,
        (forall|i: int|
            0 <= i < posts.len() ==> signed((#[trigger] posts[i]).server_id) < cur.last_server_id
                || (signed(posts[i].server_id) == cur.last_server_id && signed(posts[i].ts)
                == cur.last_ts)) ==> advanced(Some(cur), posts) == (cur.last_server_id as int, cur.last_ts as int),
{
    lemma_newest_bounds(posts);
}

proof fn lemma_newest_bounds(posts: Seq<PostRef>)
    ensures
        posts.len() > 0 ==> newest_post(posts) is Some && posts.contains(newest_post(posts)->0),
        forall|i: int|
            0 <= i < posts.len() ==> newest_post(posts) is Some && (#[trigger] posts[i]).server_id
                <= newest_post(posts)->0.server_id,
    decreases posts.len(),
{
    if posts.len() > 0 {
        let init = posts.drop_last();
        lemma_newest_bounds(init);
        assert forall|i: int| 0 <= i < posts.len() implies newest_post(posts) is Some && (
        #[trigger] posts[i]).server_id <= newest_post(posts)->0.server_id by {
            if i < init.len() {
                assert(init[i].server_id <= newest_post(init)->0.server_id);
            }
        }
        assert(posts.contains(newest_post(posts)->0)) by {
            if newest_post(posts)->0 == posts.last() {
                assert(posts[posts.len() - 1] == posts.last());
            } else {
                let k = choose|k: int| 0 <= k < init.len() && init[k] == newest_post(init)->0;
                assert(posts[k] == newest_post(posts)->0);
            }
        }
    }
}

proof fn lemma_newer_empty(last: int, posts: Seq<PostRef>)
    requires
        forall|i: int| 0 <= i < posts.len() ==> signed((#[trigger] posts[i]).server_id) <= last,
    ensures
        newer(last, posts).len() == 0,
    decreases posts.len(),
{
    if posts.len() > 0 {
        assert(signed(posts[posts.len() - 1].server_id) <= last);
        assert forall|i: int| 0 <= i < posts.len() - 1 implies signed(
            (#[trigger] posts.drop_last()[i]).server_id,
        ) <= last by {
            assert(posts.drop_last()[i] == posts[i]);
        }
        lemma_newer_empty(last, posts.drop_last());
    }
}

/// No post is digested twice: once the cursor has moved over a page, none of
/// its posts is new any more.
pub proof fn law_no_post_twice(cur: Option<Cursor>, next: Cursor, posts: Seq<PostRef>)
    requires
        (next.last_server_id as int, next.last_ts as int) == advanced(cur, posts),
        forall|i: int| 0 <= i < posts.len() ==> (#[trigger] posts[i]).server_id <= i64::MAX,
    ensures
        fresh(Some(next), posts).len() == 0,
{
    lemma_newest_bounds(posts);
    assert forall|i: int| 0 <= i < posts.len() implies signed((#[trigger] posts[i]).server_id)
        <= next.last_server_id by {
        let p = newest_post(posts)->0;
        let k = choose|k: int| 0 <= k < posts.len() && posts[k] == p;
        assert(posts[k].server_id <= i64::MAX);
    }
    lemma_newer_empty(next.last_server_id as int, posts);
}

/// New posts come oldest first, each exactly once per fetch.
pub proof fn law_fresh_is_chronological(cur: Cursor, posts: Seq<PostRef>)
    ensures
        is_sorted(fresh(Some(cur), posts)),
        fresh(Some(cur), posts).to_multiset() == newer(
            cur.last_server_id as int,
            posts,
        ).to_multiset(),
{
    lemma_sorted(newer(cur.last_server_id as int, posts));
}

/// A post's text is never lost: its conversation is the body, else its
/// extended text, else a caption behind a mark of its medium. A body that ends
/// with none of them comes only of a post without any text.
pub proof fn law_post_text_is_shown(c: PostContent)
    ensures
        ({
            let there = |s: Option<String>| s is Some && s->0@.len() > 0;
            let body = body_text(c);
            let ends = |s: Option<String>|
                there(s) && body.len() >= s->0@.len() && body.skip(body.len() - s->0@.len())
                    == s->0@;
            &&& there(c.conversation) ==> body == c.conversation->0@
            &&& !there(c.conversation) && there(c.extended_text) ==> body == c.extended_text->0@
            &&& !there(c.conversation) && !there(c.extended_text) && there(c.image_caption) ==> ends(
                c.image_caption,
            ) && body.len() > c.image_caption->0@.len()
            &&& !there(c.conversation) && !there(c.extended_text) && !there(c.image_caption) && there(
                c.video_caption,
            ) ==> ends(c.video_caption) && body.len() > c.video_caption->0@.len()
            &&& there(c.conversation) || there(c.extended_text) || there(c.image_caption) || there(
                c.video_caption,
            ) ==> ends(c.conversation) || ends(c.extended_text) || ends(c.image_caption) || ends(
                c.video_caption,
            )
            &&& body.len() > 0
        }),
{
    reveal_strlit("📷 ");
    reveal_strlit("🎥 ");
    reveal_strlit("[media post]");
    let body = body_text(c);
    if filled(c.conversation) {
        assert(body.skip(0) =~= body);
    } else if filled(c.extended_text) {
        assert(body.skip(0) =~= body);
    } else if filled(c.image_caption) {
        assert(body.skip(body.len() - c.image_caption->0@.len()) =~= c.image_caption->0@);
    } else if filled(c.video_caption) {
        assert(body.skip(body.len() - c.video_caption->0@.len()) =~= c.video_caption->0@);
    }
}

/// A post of the digest has the text that was fetched under its id.
pub proof fn law_text_is_that_of_the_post(fetched: Seq<Fetched>, i: int)
    requires
        0 <= i < fetched.len(),
        forall|j: int| 0 <= j < i ==> (#[trigger] fetched[j]).server_id != fetched[i].server_id,
    ensures
        text_for(fetched, fetched[i].server_id) == match fetched[i].content {
            Some(c) => body_text(c),
            None => "[post without text]"@,
        },
    decreases fetched.len(),
{
    if i > 0 {
        assert(fetched[0].server_id != fetched[i].server_id);
        let rest = fetched.drop_first();
        assert forall|j: int| 0 <= j < i - 1 implies (#[trigger] rest[j]).server_id != rest[i
            - 1].server_id by {
            assert(fetched[j + 1].server_id != fetched[i].server_id);
        }
        law_text_is_that_of_the_post(rest, i - 1);
    }
}

/// The signed form of an id or a time is the number itself as far as 63 bits
/// go.
pub proof fn law_signed_is_the_number(n: u64)
    ensures
        n <= i64::MAX ==> signed(n) == n,
        i64::MIN <= signed(n) <= i64::MAX,
        signed(n) == n || signed(n) + 0x1_0000_0000_0000_0000 == n,
{
}

proof fn lemma_newer_holds(last: int, posts: Seq<PostRef>, p: PostRef)
    ensures
        newer(last, posts).contains(p) <==> posts.contains(p) && signed(p.server_id) > last,
        newer(last, posts).len() <= posts.len(),
    decreases posts.len(),
{
    if posts.len() > 0 {
        let init = posts.drop_last();
        lemma_newer_holds(last, init, p);
        let n = newer(last, init);
        let r = newer(last, posts);
        if posts.contains(p) {
            let k = choose|k: int| 0 <= k < posts.len() && posts[k] == p;
            if k < init.len() {
                assert(init[k] == p);
            }
        }
        if init.contains(p) {
            let k = choose|k: int| 0 <= k < init.len() && init[k] == p;
            assert(posts[k] == p);
        }
        if n.contains(p) {
            let k = choose|k: int| 0 <= k < n.len() && n[k] == p;
            assert(r[k] == p);
        }
        if r.contains(p) {
            let k = choose|k: int| 0 <= k < r.len() && r[k] == p;
            if k < n.len() {
                assert(n[k] == p);
            }
        }
        if p == posts.last() {
            assert(posts[posts.len() - 1] == p);
            if signed(p.server_id) > last {
                assert(r[r.len() - 1] == p);
            }
        }
    }
}

/// The new posts are exactly those beyond the cursor.
pub proof fn law_fresh_are_the_posts_beyond_the_cursor(
    cur: Cursor,
    posts: Seq<PostRef>,
    p: PostRef,
)
    ensures
        fresh(Some(cur), posts).contains(p) <==> posts.contains(p) && signed(p.server_id)
            > cur.last_server_id,
{
    broadcast use vstd::seq_lib::group_to_multiset_ensures;

    let n = newer(cur.last_server_id as int, posts);
    lemma_newer_holds(cur.last_server_id as int, posts, p);
    lemma_sorted(n);
    let f = fresh(Some(cur), posts);
    assert(f.contains(p) <==> f.to_multiset().contains(p));
    assert(n.contains(p) <==> n.to_multiset().contains(p));
}

/// The cursor goes to the newest post seen: no post of the page lies beyond
/// it, and it stands on the cursor before or on one of the posts.
pub proof fn law_cursor_reaches_the_newest(cur: Option<Cursor>, posts: Seq<PostRef>, i: int)
    requires
        forall|j: int| 0 <= j < posts.len() ==> (#[trigger] posts[j]).server_id <= i64::MAX,
    ensures
        0 <= i < posts.len() ==> advanced(cur, posts).0 >= posts[i].server_id,
        (cur is Some && advanced(cur, posts) == (
            cur->0.last_server_id as int,
            cur->0.last_ts as int,
        )) || (posts.len() == 0 && cur is None && advanced(cur, posts) == (0int, 0int)) || exists|
            k: int,
        |
            0 <= k < posts.len() && advanced(cur, posts) == (
                (#[trigger] posts[k]).server_id as int,
                signed(posts[k].ts),
            ),
{
    lemma_newest_bounds(posts);
    if posts.len() > 0 {
        let p = newest_post(posts)->0;
        let k = choose|k: int| 0 <= k < posts.len() && posts[k] == p;
        assert(posts[k].server_id <= i64::MAX);
        if 0 <= i < posts.len() {
            assert(posts[i].server_id <= p.server_id);
        }
    }
}

/// Paging goes on from the oldest post of a page.
pub proof fn law_paging_starts_at_the_oldest(posts: Seq<PostRef>, i: int)
    ensures
        oldest_ts(posts) is None <==> posts.len() == 0,
        0 <= i < posts.len() ==> oldest_ts(posts)->0 <= posts[i].ts,
        posts.len() > 0 ==> exists|k: int|
            0 <= k < posts.len() && (#[trigger] posts[k]).ts == oldest_ts(posts)->0,
    decreases posts.len(),
{
    if posts.len() > 0 {
        let init = posts.drop_last();
        law_paging_starts_at_the_oldest(init, i);
        if oldest_ts(posts) == Some(posts.last().ts) {
            assert(posts[posts.len() - 1].ts == oldest_ts(posts)->0);
        } else {
            let k = choose|k: int| 0 <= k < init.len() && (#[trigger] init[k]).ts == oldest_ts(
                init,
            )->0;
            assert(posts[k].ts == oldest_ts(posts)->0);
        }
    }
}

/// The digest names the channel and tells how many posts are new.
pub proof fn law_digest_names_the_channel(
    name: Seq<char>,
    posts: Seq<PostRef>,
    texts: Seq<String>,
)
    ensures
        tells(digest_text(name, posts, texts), " — "@ + name + " ("@ + decimal(posts.len()) + " new)"@),
{
    reveal_strlit("📰 WhatsApp newsletter digest — ");
    reveal_strlit(" — ");
    reveal_strlit(" new)\n");
    reveal_strlit(" new)");
    reveal_strlit("\n");
    let t = digest_text(name, posts, texts);
    let body = digest_lines(posts, texts, shorter(posts.len(), texts.len()) as int);
    let title = "📰 WhatsApp newsletter digest — "@;
    let part = " — "@ + name + " ("@ + decimal(posts.len()) + " new)"@;
    assert(t =~= title.take(title.len() - 3) + part + ("\n"@ + body));
    lemma_tells(t, title.take(title.len() - 3), part, "\n"@ + body);
}

/// The digest shows every post, in order: each has a line of its own with its
/// time in brackets, or its seconds where it has no date, and its text.
pub proof fn law_digest_shows_every_post(
    name: Seq<char>,
    posts: Seq<PostRef>,
    texts: Seq<String>,
    i: int,
)
    requires
        0 <= i < posts.len(),
        posts.len() == texts.len(),
    ensures
        ({
            let when = match utc_text(signed(posts[i].ts), "%Y-%m-%d %H:%M"@) {
                Some(w) => w,
                None => decimal(posts[i].ts as nat) + "s"@,
            };
            tells(
                digest_text(name, posts, texts),
                "\n["@ + when + "] "@ + texts[i]@ + "\n"@,
            )
        }),
{
    let t = digest_text(name, posts, texts);
    let n = posts.len() as int;
    let head = "📰 WhatsApp newsletter digest — "@ + name + " ("@ + decimal(posts.len())
        + " new)\n"@;
    let body = digest_lines(posts, texts, n);
    let line = digest_line(utc_text(signed(posts[i].ts), minute_format()), posts[i].ts, texts[i]@);
    lemma_digest_lines(posts, texts, i, n);
    let before = digest_lines(posts, texts, i);
    let k = (before.len() + line.len()) as int;
    let after = body.skip(k);
    assert(t == head + body);
    assert(body =~= body.take(k) + after);
    assert(t =~= (head + before) + line + after);
    lemma_tells(t, head + before, line, after);
}

/// A digest of more posts starts like that of the first ones: a later post
/// never moves an earlier one.
pub proof fn law_digest_is_in_order(posts: Seq<PostRef>, texts: Seq<String>, i: int, n: int)
    requires
        0 <= i <= n,
    ensures
        digest_lines(posts, texts, i).len() <= digest_lines(posts, texts, n).len(),
        digest_lines(posts, texts, n).take(digest_lines(posts, texts, i).len() as int)
            == digest_lines(posts, texts, i),
    decreases n,
{
    let part = digest_lines(posts, texts, i);
    let all = digest_lines(posts, texts, n);
    if i < n {
        law_digest_is_in_order(posts, texts, i, n - 1);
        let less = digest_lines(posts, texts, n - 1);
        assert(all.take(part.len() as int) =~= less.take(part.len() as int));
    } else {
        assert(all.take(part.len() as int) =~= part);
    }
}

proof fn lemma_digest_lines(posts: Seq<PostRef>, texts: Seq<String>, i: int, n: int)
    requires
        0 <= i < n,
    ensures
        ({
            let before = digest_lines(posts, texts, i);
            let line = digest_line(
                utc_text(signed(posts[i].ts), minute_format()),
                posts[i].ts,
                texts[i]@,
            );
            let all = digest_lines(posts, texts, n);
            &&& before.len() + line.len() <= all.len()
            &&& all.take((before.len() + line.len()) as int) == before + line
        }),
    decreases n,
{
    let before = digest_lines(posts, texts, i);
    let line = digest_line(
        utc_text(signed(posts[i].ts), minute_format()),
        posts[i].ts,
        texts[i]@,
    );
    let all = digest_lines(posts, texts, n);
    if n > i + 1 {
        lemma_digest_lines(posts, texts, i, n - 1);
        let less = digest_lines(posts, texts, n - 1);
        assert(all.take((before.len() + line.len()) as int) =~= less.take(
            (before.len() + line.len()) as int,
        ));
    } else {
        assert(all.take((before.len() + line.len()) as int) =~= before + line);
    }
}

/// How often and how far a poll looks: every fifteen minutes, thirty posts a
/// page, ten pages at most.
pub proof fn law_poll_limits()
    ensures
        POLL_INTERVAL_SECS == 15 * 60,
        POLL_PAGE_SIZE == 30,
        POLL_MAX_PAGES == 10,
{
}

/// A digest has a line for every post with a text.
pub proof fn law_digest_lines_pair_up(a: nat, b: nat)
    ensures
        shorter(a, b) <= a,
        shorter(a, b) <= b,
        shorter(a, b) == a || shorter(a, b) == b,
        shorter(a, a) == a,
{
}

/// A page adds each of its posts, in order, with the text fetched for it.
pub proof fn law_page_adds_every_post(
    posts: Seq<PostRef>,
    fetched: Seq<Fetched>,
    out: Seq<Digested>,
    i: int,
)
    requires
        collected(posts, fetched, out),
        0 <= i < posts.len(),
    ensures
        out.len() == posts.len(),
        out[i].post == posts[i],
        out[i].text@ == text_for(fetched, posts[i].server_id),
{
}

} // verus!
