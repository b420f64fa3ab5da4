//! The aggregator core: filters raw response elements into comment records,
//! merges snapshot batches into one map keyed by sequence number — a later
//! batch overwrites an earlier one with the same number — and orders the
//! merged result by video position.

use vstd::prelude::*;

use crate::error::Error;
use crate::info::{find_default_from, Info};
use crate::text::dec_str;
use crate::wayback::Wayback;

verus! {

/// One raw element of the comment-fetch response that carried a chat
/// payload; `content` may still be absent or empty.
#[derive(Debug)]
pub struct Chat {
    pub thread: String,
    pub no: usize,
    pub vpos: isize,
    pub date: isize,
    pub user_id: Option<String>,
    pub mail: Option<String>,
    pub content: Option<String>,
}

/// One comment record, deduplicated across snapshots by `no`.
#[derive(Debug)]
pub struct Comment {
    pub thread: String,
    pub no: usize,
    pub vpos: isize,
    pub date: isize,
    pub user_id: Option<String>,
    pub content: String,
    pub mail: Option<String>,
}

/// The mathematical image of a raw chat element.
pub struct ChatView {
    pub thread: Seq<char>,
    pub no: usize,
    pub vpos: isize,
    pub date: isize,
    pub user_id: Option<Seq<char>>,
    pub mail: Option<Seq<char>>,
    pub content: Option<Seq<char>>,
}

/// The mathematical image of a comment record.
pub struct CommentView {
    pub thread: Seq<char>,
    pub no: usize,
    pub vpos: isize,
    pub date: isize,
    pub user_id: Option<Seq<char>>,
    pub content: Seq<char>,
    pub mail: Option<Seq<char>>,
}

pub open spec fn view_opt_text(o: Option<String>) -> Option<Seq<char>> {
    match o {
        Some(s) => Some(s@),
        None => None,
    }
}

impl View for Chat {
    type V = ChatView;

    open spec fn view(&self) -> ChatView {
        ChatView {
            thread: self.thread@,
            no: self.no,
            vpos: self.vpos,
            date: self.date,
            user_id: view_opt_text(self.user_id),
            mail: view_opt_text(self.mail),
            content: view_opt_text(self.content),
        }
    }
}

impl View for Comment {
    type V = CommentView;

    open spec fn view(&self) -> CommentView {
        CommentView {
            thread: self.thread@,
            no: self.no,
            vpos: self.vpos,
            date: self.date,
            user_id: view_opt_text(self.user_id),
            content: self.content@,
            mail: view_opt_text(self.mail),
        }
    }
}

/// The chats of a vector, as their images.
pub open spec fn chats_view(s: Seq<Chat>) -> Seq<ChatView> {
    s.map_values(|c: Chat| c@)
}

/// The comments of a vector, as their images.
pub open spec fn comments_view(s: Seq<Comment>) -> Seq<CommentView> {
    s.map_values(|c: Comment| c@)
}

/// A chat element reaches the aggregator only with a populated, non-empty
/// content.
pub open spec fn chat_keeps(c: ChatView) -> bool {
    match c.content {
        Some(t) => t.len() > 0,
        None => false,
    }
}

/// The comment record a kept chat element turns into.
pub open spec fn chat_to_comment(c: ChatView) -> CommentView {
    CommentView {
        thread: c.thread,
        no: c.no,
        vpos: c.vpos,
        date: c.date,
        user_id: c.user_id,
        content: match c.content {
            Some(t) => t,
            None => Seq::empty(),
        },
        mail: c.mail,
    }
}

/// The comment records of a batch of raw chat elements, in order, with the
/// payload-less and empty ones discarded.
pub open spec fn kept_comments(cs: Seq<ChatView>) -> Seq<CommentView>
    decreases cs.len(),
{
    if cs.len() == 0 {
        Seq::empty()
    } else {
        kept_comments(cs.drop_last()) + (if chat_keeps(cs.last()) {
            seq![chat_to_comment(cs.last())]
        } else {
            Seq::<CommentView>::empty()
        })
    }
}

/// Turns one response batch into comment records, keeping exactly the
/// elements with a populated, non-empty content, in response order.
pub fn chats_to_comments(chats: Vec<Chat>) -> (r: Vec<Comment>)
    ensures
        comments_view(r@) == kept_comments(chats_view(chats@)),
{
    let ghost all = chats_view(chats@);
    let mut rest = chats;
    let mut out: Vec<Comment> = Vec::new();
    let ghost mut done: int = 0;
    while rest.len() > 0
        invariant
            0 <= done <= all.len(),
            chats_view(rest@) =~= all.skip(done),
            comments_view(out@) =~= kept_comments(all.take(done)),
        decreases rest@.len(),
    {
        let ghost before = rest@;
        let c = rest.remove(0);
        proof {
            assert(chats_view(before).len() == before.len());
            assert(done < all.len());
            assert(chats_view(before)[0] == before[0]@);
            assert(c@ == all[done]);
            assert forall|k: int| 0 <= k < rest@.len() implies #[trigger] chats_view(rest@)[k]
                == all[done + 1 + k] by {
                assert(rest@[k] == before[k + 1]);
                assert(chats_view(rest@)[k] == rest@[k]@);
                assert(chats_view(before)[k + 1] == before[k + 1]@);
            }
            assert(chats_view(rest@) =~= all.skip(done + 1));
            assert(all.take(done + 1).drop_last() =~= all.take(done));
            assert(all.take(done + 1).last() == all[done]);
        }
        let keep = match c.content {
            Some(ref t) => t.as_str().unicode_len() > 0,
            None => false,
        };
        assert(keep == chat_keeps(c@));
        if keep {
            let content = match c.content {
                Some(t) => t,
                None => String::new(),
            };
            out.push(
                Comment {
                    thread: c.thread,
                    no: c.no,
                    vpos: c.vpos,
                    date: c.date,
                    user_id: c.user_id,
                    content,
                    mail: c.mail,
                },
            );
        }
        proof {
            done = done + 1;
            assert(comments_view(out@) =~= kept_comments(all.take(done)));
        }
    }
    proof {
        assert(all.take(all.len() as int) =~= all);
    }
    out
}

/// The map a sequence of comment records folds into: each record inserted
/// under its sequence number, in order, so a later record with the same
/// number overwrites an earlier one.
pub open spec fn batch_merge(m: Map<int, CommentView>, batch: Seq<CommentView>) -> Map<
    int,
    CommentView,
>
    decreases batch.len(),
{
    if batch.len() == 0 {
        m
    } else {
        batch_merge(m, batch.drop_last()).insert(batch.last().no as int, batch.last())
    }
}

/// The last record of a batch with the given sequence number, if any: the
/// one that survives a merge.
pub open spec fn last_with_no(batch: Seq<CommentView>, k: int) -> Option<CommentView>
    decreases batch.len(),
{
    if batch.len() == 0 {
        None
    } else if batch.last().no as int == k {
        Some(batch.last())
    } else {
        last_with_no(batch.drop_last(), k)
    }
}

/// What a merge holds at each key: the batch's last record with that
/// number when there is one, else what the map already held.
pub proof fn lemma_batch_merge_at(m: Map<int, CommentView>, batch: Seq<CommentView>, k: int)
    ensures
        batch_merge(m, batch).contains_key(k) <==> (m.contains_key(k) || last_with_no(batch, k)
            is Some),
        batch_merge(m, batch).contains_key(k) ==> batch_merge(m, batch)[k] == (match last_with_no(
            batch,
            k,
        ) {
            Some(c) => c,
            None => m[k],
        }),
    decreases batch.len(),
{
    if batch.len() > 0 {
        lemma_batch_merge_at(m, batch.drop_last(), k);
    }
}

/// Merging two snapshot batches that both hold a record with one sequence
/// number keeps the later batch's version, whatever the starting map held.
pub proof fn lemma_merge_last_wins(
    m: Map<int, CommentView>,
    earlier: Seq<CommentView>,
    later: Seq<CommentView>,
    k: int,
)
    requires
        last_with_no(later, k) is Some,
    ensures
        batch_merge(batch_merge(m, earlier), later).contains_key(k),
        batch_merge(batch_merge(m, earlier), later)[k] == last_with_no(later, k)->Some_0,
{
    lemma_batch_merge_at(batch_merge(m, earlier), later, k);
}

/// The sequence numbers of a comment sequence are pairwise distinct.
pub open spec fn unique_nos(s: Seq<CommentView>) -> bool {
    forall|i: int, j: int| 0 <= i < j < s.len() ==> s[i].no != s[j].no
}

/// The records are in non-decreasing video-position order.
pub open spec fn sorted_by_vpos(s: Seq<CommentView>) -> bool {
    forall|i: int, j: int| 0 <= i < j < s.len() ==> s[i].vpos <= s[j].vpos
}

/// The running deduplicated comment map of one aggregation: records keyed
/// by sequence number, the latest merged record winning.
pub struct CommentSet {
    comments: Vec<Comment>,
}

/// The map of a record sequence with pairwise distinct numbers.
pub open spec fn map_of(s: Seq<CommentView>) -> Map<int, CommentView> {
    batch_merge(Map::empty(), s)
}

/// A key is in the map exactly when some record carries it.
proof fn lemma_map_of_domain(s: Seq<CommentView>, k: int)
    ensures
        map_of(s).contains_key(k) <==> exists|i: int| 0 <= i < s.len() && s[i].no as int == k,
    decreases s.len(),
{
    if s.len() == 0 {
    } else {
        lemma_map_of_domain(s.drop_last(), k);
        if s.last().no as int == k {
            assert(s[s.len() - 1].no as int == k);
        } else {
            assert((exists|i: int| 0 <= i < s.len() - 1 && s.drop_last()[i].no as int == k)
                <==> (exists|i: int| 0 <= i < s.len() && s[i].no as int == k)) by {
                if exists|i: int| 0 <= i < s.len() && s[i].no as int == k {
                    let i = choose|i: int| 0 <= i < s.len() && s[i].no as int == k;
                    assert(i < s.len() - 1);
                    assert(s.drop_last()[i].no as int == k);
                }
            }
        }
    }
}

/// With pairwise distinct numbers, the map holds each record under its
/// number.
proof fn lemma_map_of_get(s: Seq<CommentView>, i: int)
    requires
        unique_nos(s),
        0 <= i < s.len(),
    ensures
        map_of(s).contains_key(s[i].no as int),
        map_of(s)[s[i].no as int] == s[i],
    decreases s.len(),
{
    if i == s.len() - 1 {
    } else {
        assert(unique_nos(s.drop_last()));
        assert(s.drop_last()[i] == s[i]);
        lemma_map_of_get(s.drop_last(), i);
        assert(s.last().no != s[i].no);
    }
}

/// Replacing the one record that carries a number updates the map at that
/// number alone.
proof fn lemma_map_of_update(s: Seq<CommentView>, j: int, c: CommentView)
    requires
        unique_nos(s),
        0 <= j < s.len(),
        s[j].no == c.no,
    ensures
        map_of(s.update(j, c)) == map_of(s).insert(c.no as int, c),
    decreases s.len(),
{
    let s2 = s.update(j, c);
    if j == s.len() - 1 {
        assert(s2.drop_last() =~= s.drop_last());
        assert(s2.last() == c);
        assert(map_of(s2) == map_of(s.drop_last()).insert(c.no as int, c));
        assert(map_of(s) == map_of(s.drop_last()).insert(s[j].no as int, s[j]));
        assert(map_of(s.drop_last()).insert(s[j].no as int, s[j]).insert(c.no as int, c)
            =~= map_of(s.drop_last()).insert(c.no as int, c));
    } else {
        assert(unique_nos(s.drop_last()));
        assert(s.drop_last()[j] == s[j]);
        lemma_map_of_update(s.drop_last(), j, c);
        assert(s2.drop_last() =~= s.drop_last().update(j, c));
        assert(s2.last() == s.last());
        assert(map_of(s2) == map_of(s.drop_last().update(j, c)).insert(
            s.last().no as int,
            s.last(),
        ));
        assert(s.last().no != c.no);
        assert(map_of(s.drop_last()).insert(c.no as int, c).insert(s.last().no as int, s.last())
            =~= map_of(s.drop_last()).insert(s.last().no as int, s.last()).insert(c.no as int, c));
    }
}

impl CommentSet {
    /// The records in merge order, with pairwise distinct numbers.
    pub closed spec fn spec_values(&self) -> Seq<CommentView> {
        comments_view(self.comments@)
    }

    /// The deduplicated map this set stands for.
    pub open spec fn spec_map(&self) -> Map<int, CommentView> {
        map_of(self.spec_values())
    }

    /// The records carry pairwise distinct sequence numbers.
    pub closed spec fn wf(&self) -> bool {
        unique_nos(comments_view(self.comments@))
    }

    /// An empty set.
    pub fn new() -> (r: CommentSet)
        ensures
            r.wf(),
            r.spec_values() == Seq::<CommentView>::empty(),
            r.spec_map() == Map::<int, CommentView>::empty(),
    {
        let r = CommentSet { comments: Vec::new() };
        assert(comments_view(r.comments@) =~= Seq::<CommentView>::empty());
        r
    }

    /// Inserts one record: a record with the same number is overwritten,
    /// a new number is appended.
    fn insert_one(&mut self, c: Comment)
        requires
            old(self).wf(),
        ensures
            final(self).wf(),
            final(self).spec_map() == old(self).spec_map().insert(c@.no as int, c@),
            final(self).spec_values().to_multiset().count(c@) > 0,
    {
        let ghost s = comments_view(self.comments@);
        let n = self.comments.len();
        let mut i: usize = 0;
        while i < n
            invariant
                n == self.comments@.len(),
                i <= n,
                forall|j: int| 0 <= j < i ==> comments_view(self.comments@)[j].no != c@.no,
                s == comments_view(self.comments@),
                self.comments@ == old(self).comments@,
                unique_nos(s),
            decreases n - i,
        {
            if self.comments[i].no == c.no {
                let ghost j = i as int;
                let ghost entry = self.comments@;
                let _ = self.comments.remove(i);
                self.comments.insert(i, c);
                proof {
                    assert(self.comments@ =~= entry.update(j, c));
                    assert forall|k: int| 0 <= k < self.comments@.len() implies #[trigger] comments_view(
                        self.comments@,
                    )[k] == s.update(j, c@)[k] by {
                        assert(comments_view(self.comments@)[k] == self.comments@[k]@);
                        if k != j {
                            assert(s[k] == entry[k]@);
                        }
                    }
                    assert(comments_view(self.comments@) =~= s.update(j, c@));
                    lemma_map_of_update(s, j, c@);
                    assert(unique_nos(s.update(j, c@)));
                    comments_view(self.comments@).to_multiset_ensures();
                    assert(comments_view(self.comments@)[j] == c@);
                    assert(comments_view(self.comments@).contains(c@));
                }
                return ;
            }
            i = i + 1;
        }
        self.comments.push(c);
        proof {
            assert(comments_view(self.comments@) =~= s.push(c@));
            assert(s.push(c@).drop_last() =~= s);
            assert(unique_nos(s.push(c@)));
            comments_view(self.comments@).to_multiset_ensures();
            assert(comments_view(self.comments@)[s.len() as int] == c@);
            assert(comments_view(self.comments@).contains(c@));
        }
    }

    /// Merges one snapshot batch, in batch order: each record lands under
    /// its sequence number, overwriting what an earlier snapshot put there.
    pub fn merge(&mut self, batch: Vec<Comment>)
        requires
            old(self).wf(),
        ensures
            final(self).wf(),
            final(self).spec_map() == batch_merge(
                old(self).spec_map(),
                comments_view(batch@),
            ),
    {
        let ghost b = comments_view(batch@);
        let mut rest = batch;
        let ghost mut done: int = 0;
        while rest.len() > 0
            invariant
                0 <= done <= b.len(),
                comments_view(rest@) =~= b.skip(done),
                self.wf(),
                self.spec_map() == batch_merge(old(self).spec_map(), b.take(done)),
            decreases rest@.len(),
        {
            let ghost before = rest@;
            let c = rest.remove(0);
            proof {
                assert(comments_view(before).len() == before.len());
                assert(done < b.len());
                assert(comments_view(before)[0] == before[0]@);
                assert(c@ == b[done]);
                assert forall|k: int| 0 <= k < rest@.len() implies #[trigger] comments_view(
                    rest@,
                )[k] == b[done + 1 + k] by {
                    assert(rest@[k] == before[k + 1]);
                    assert(comments_view(rest@)[k] == rest@[k]@);
                    assert(comments_view(before)[k + 1] == before[k + 1]@);
                }
                assert(comments_view(rest@) =~= b.skip(done + 1));
                assert(b.take(done + 1).drop_last() =~= b.take(done));
                assert(b.take(done + 1).last() == b[done]);
            }
            self.insert_one(c);
            proof {
                done = done + 1;
            }
        }
        proof {
            assert(b.take(b.len() as int) =~= b);
        }
    }

    /// The merged records ordered by video position, ascending; ties keep
    /// no promised order. Every record of the set appears exactly once.
    #[verifier::rlimit(100)]
    pub fn into_sorted_by_vpos(self) -> (r: Vec<Comment>)
        requires
            self.wf(),
        ensures
            sorted_by_vpos(comments_view(r@)),
            comments_view(r@).to_multiset() == self.spec_values().to_multiset(),
            unique_nos(comments_view(r@)),
    {
        let ghost orig = comments_view(self.comments@);
        let mut v = self.comments;
        let mut i: usize = 1;
        while i < v.len()
            invariant
                1 <= i,
                comments_view(v@).to_multiset() == orig.to_multiset(),
                v@.len() == orig.len(),
                forall|a: int, b: int|
                    0 <= a < b < i && b < v@.len() ==> comments_view(v@)[a].vpos <= comments_view(
                        v@,
                    )[b].vpos,
            decreases v@.len() - i,
        {
            let ghost s = comments_view(v@);
            let mut j: usize = i;
            while j > 0 && v[j - 1].vpos > v[i].vpos
                invariant
                    0 <= j <= i < v@.len(),
                    s == comments_view(v@),
                    forall|k: int| j <= k < i ==> comments_view(v@)[k].vpos > comments_view(
                        v@,
                    )[i as int].vpos,
                decreases j,
            {
                j = j - 1;
            }
            let x = v.remove(i);
            v.insert(j, x);
            proof {
                let t = s.remove(i as int).insert(j as int, s[i as int]);
                assert(comments_view(v@) =~= t);
                s.to_multiset_ensures();
                assert(s.remove(i as int).to_multiset() =~= s.to_multiset().remove(s[i as int]));
                vstd::seq_lib::to_multiset_insert(s.remove(i as int), j as int, s[i as int]);
                assert(s.contains(s[i as int]));
                s.remove(i as int).to_multiset_ensures();
                assert(t.to_multiset() =~= s.to_multiset()) by {
                    assert(s.to_multiset().count(s[i as int]) > 0);
                    assert(t.to_multiset() =~= s.to_multiset().remove(s[i as int]).insert(
                        s[i as int],
                    ));
                    assert(s.to_multiset().remove(s[i as int]).insert(s[i as int]) =~= s
                        .to_multiset());
                }
                assert forall|a: int, b: int|
                    0 <= a < b < i + 1 && b < t.len() implies t[a].vpos <= t[b].vpos by {
                    assert(forall|k: int| 0 <= k < j ==> t[k] == s[k]);
                    assert(t[j as int] == s[i as int]);
                    assert(forall|k: int| j < k <= i ==> t[k] == s[k - 1]);
                    if j > 0 {
                        assert(s[j - 1].vpos <= s[i as int].vpos);
                    }
                }
            }
            i = i + 1;
        }
        proof {
            comments_view(v@).to_multiset_ensures();
            orig.to_multiset_ensures();
            if v@.len() < 2 {
                assert(sorted_by_vpos(comments_view(v@)));
            }
            assert(sorted_by_vpos(comments_view(v@)));
            lemma_unique_nos_from_multiset(orig, comments_view(v@));
        }
        v
    }
}

/// Sequence multisets agree, so distinct numbers carry over.
proof fn lemma_unique_nos_from_multiset(s: Seq<CommentView>, t: Seq<CommentView>)
    requires
        unique_nos(s),
        s.to_multiset() == t.to_multiset(),
    ensures
        unique_nos(t),
{
    assert forall|i: int, j: int| 0 <= i < j < t.len() implies t[i].no != t[j].no by {
        if t[i].no == t[j].no {
            if t[i] == t[j] {
                lemma_count_ge_two(t, i, j);
                s.to_multiset_ensures();
                t.to_multiset_ensures();
                lemma_unique_count_le_one(s, t[i]);
                assert(false);
            } else {
                s.to_multiset_ensures();
                t.to_multiset_ensures();
                assert(t.contains(t[i]));
                assert(t.contains(t[j]));
                assert(s.to_multiset().count(t[i]) > 0);
                assert(s.to_multiset().count(t[j]) > 0);
                assert(s.contains(t[i]));
                assert(s.contains(t[j]));
                let a = choose|a: int| 0 <= a < s.len() && s[a] == t[i];
                let b = choose|b: int| 0 <= b < s.len() && s[b] == t[j];
                assert(a != b);
                assert(false);
            }
        }
    }
}

/// A sequence with two equal records counts that record at least twice.
proof fn lemma_count_ge_two(t: Seq<CommentView>, i: int, j: int)
    requires
        0 <= i < j < t.len(),
        t[i] == t[j],
    ensures
        t.to_multiset().count(t[i]) >= 2,
{
    let t1 = t.remove(j);
    t.to_multiset_ensures();
    assert(t1.to_multiset() =~= t.to_multiset().remove(t[j]));
    assert(t1[i] == t[i]);
    t1.to_multiset_ensures();
    assert(t1.contains(t1[i]));
    assert(t1.to_multiset().count(t[i]) > 0);
}

/// A sequence with pairwise distinct numbers counts every record at most
/// once.
proof fn lemma_unique_count_le_one(s: Seq<CommentView>, c: CommentView)
    requires
        unique_nos(s),
    ensures
        s.to_multiset().count(c) <= 1,
{
    if s.to_multiset().count(c) >= 2 {
        s.to_multiset_ensures();
        assert(s.contains(c));
        let i = choose|i: int| 0 <= i < s.len() && s[i] == c;
        let s1 = s.remove(i);
        assert(s1.to_multiset() =~= s.to_multiset().remove(c));
        assert(s1.to_multiset().count(c) >= 1);
        s1.to_multiset_ensures();
        assert(s1.contains(c));
        let j = choose|j: int| 0 <= j < s1.len() && s1[j] == c;
        if j < i {
            assert(s[j] == c);
            assert(false);
        } else {
            assert(s[j + 1] == c);
            assert(false);
        }
    }
}

/// The resolved authorization tokens of one run: the thread key pair and
/// the wayback key.
pub struct ResolvedKeys {
    pub threadkey: String,
    pub force_184: String,
    pub waybackkey: String,
}

/// What one run does before the first fetch: which thread to address, and
/// whether the key resolver must run at all.
#[derive(Debug)]
pub struct FetchPlan {
    pub thread_id: String,
    pub needs_keys: bool,
    pub total: Option<u64>,
}

impl Info {
    /// Plans one run: resolves the default post target thread and decides
    /// whether authorization keys are needed. Fails with `InvalidKey`
    /// exactly when no thread is marked as the default post target. Keys
    /// are needed exactly when the timeline holds a historical instant, so
    /// never for a `Latest`-only run.
    pub fn plan_fetch(&self, wayback: &Wayback) -> (r: Result<FetchPlan, Error>)
        ensures
            match r {
                Ok(p) => {
                    &&& find_default_from(self@.threads, 0) is Some
                    &&& p.thread_id@ == dec_str(
                        self@.threads[find_default_from(self@.threads, 0)->Some_0].id as nat,
                    )
                    &&& p.needs_keys == wayback.spec_has_historical()
                    &&& match p.total {
                        Some(n) => n as int == wayback.timeline().len(),
                        None => wayback.timeline().len() > u64::MAX,
                    }
                },
                Err(e) => e == Error::InvalidKey && find_default_from(self@.threads, 0) is None,
            },
    {
        proof {
            crate::info::lemma_find_default_bounds(
                crate::info::threads_view(self.comment.threads@),
                0,
            );
        }
        let tid = match self.comment.thread_id() {
            Some(tid) => tid,
            None => {
                return Err(Error::InvalidKey);
            },
        };
        Ok(
            FetchPlan {
                thread_id: tid,
                needs_keys: wayback.is_wayback(),
                total: wayback.len(),
            },
        )
    }
}

/// The per-request options of one snapshot: wayback options exactly when
/// the instant is historical and keys were resolved, official options
/// exactly when keys were resolved.
pub fn snapshot_options(current: Option<i64>, keys: &Option<ResolvedKeys>) -> (r:
    crate::body::Options)
    ensures
        (match (current, keys) {
            (Some(t), Some(k)) => r@.wayback == Some(
                crate::body::WaybackOptionsView { waybackkey: k.waybackkey@, wayback: t },
            ),
            _ => r@.wayback is None,
        }),
        (match keys {
            Some(k) => r@.official == Some(
                crate::body::OfficialOptionsView {
                    threadkey: k.threadkey@,
                    force_184: k.force_184@,
                },
            ),
            None => r@.official is None,
        }),
{
    let wayback = match (current, keys) {
        (Some(t), Some(k)) => Some(
            crate::body::WaybackOptions { waybackkey: k.waybackkey.clone(), wayback: t },
        ),
        _ => None,
    };
    let official = match keys {
        Some(k) => Some(
            crate::body::OfficialOptions {
                threadkey: k.threadkey.clone(),
                force_184: k.force_184.clone(),
            },
        ),
        None => None,
    };
    crate::body::Options { wayback, official }
}

/// A `Latest`-only run holds no historical instant, so it never needs the
/// key resolver.
pub proof fn lemma_latest_needs_no_keys()
    ensures
        !(Wayback::Latest).spec_has_historical(),
{
    let tl = (Wayback::Latest).timeline();
    assert(forall|i: int| 0 <= i < tl.len() ==> !(tl[i] is Some));
}

} // verus!
