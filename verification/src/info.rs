//! The video's comment metadata: thread descriptors, keys, and the viewer,
//! as plain values. The surrounding program fetches and decodes the watch
//! page; the logic here only reads these fields.

use vstd::prelude::*;

use crate::text::dec_str;

verus! {

/// Everything the fetch pipeline needs to know about one video.
pub struct Info {
    pub video: Video,
    pub comment: Comment,
    pub client: Client,
    pub viewer: Viewer,
}

/// The video itself. `registered_at` is the original posting instant in
/// epoch seconds, `duration` the length in seconds.
pub struct Video {
    pub id: String,
    pub title: String,
    pub duration: u64,
    pub registered_at: i64,
}

/// The comment metadata: the session-scoped keys and the thread descriptors.
pub struct Comment {
    pub keys: CommentKeys,
    pub threads: Vec<CommentThread>,
}

/// The session-scoped user key.
pub struct CommentKeys {
    pub user_key: String,
}

/// One comment thread of the video, with its access rules.
pub struct CommentThread {
    pub id: u64,
    pub fork: u64,
    pub is_active: bool,
    pub is_default_post_target: bool,
    pub is_thread_key_required: bool,
    pub is_leaf_required: bool,
    pub is_owner_thread: bool,
    pub thread_key: Option<String>,
    pub is_184_forced: Option<bool>,
}

/// The client block of the metadata.
pub struct Client {
    pub watch_id: String,
}

/// The viewer block of the metadata.
pub struct Viewer {
    pub id: u64,
}

/// The mathematical image of a thread descriptor.
pub struct CommentThreadView {
    pub id: u64,
    pub fork: u64,
    pub is_active: bool,
    pub is_default_post_target: bool,
    pub is_thread_key_required: bool,
    pub is_leaf_required: bool,
    pub is_owner_thread: bool,
    pub thread_key: Option<Seq<char>>,
    pub is_184_forced: Option<bool>,
}

impl View for CommentThread {
    type V = CommentThreadView;

    open spec fn view(&self) -> CommentThreadView {
        CommentThreadView {
            id: self.id,
            fork: self.fork,
            is_active: self.is_active,
            is_default_post_target: self.is_default_post_target,
            is_thread_key_required: self.is_thread_key_required,
            is_leaf_required: self.is_leaf_required,
            is_owner_thread: self.is_owner_thread,
            thread_key: match self.thread_key {
                Some(ref k) => Some(k@),
                None => None,
            },
            is_184_forced: self.is_184_forced,
        }
    }
}

/// The thread descriptors of a vector, as their images.
pub open spec fn threads_view(ts: Seq<CommentThread>) -> Seq<CommentThreadView> {
    ts.map_values(|t: CommentThread| t@)
}

/// The mathematical image of the whole metadata block.
pub struct InfoView {
    pub video_id: Seq<char>,
    pub title: Seq<char>,
    pub duration: u64,
    pub registered_at: i64,
    pub user_key: Seq<char>,
    pub threads: Seq<CommentThreadView>,
    pub watch_id: Seq<char>,
    pub viewer_id: u64,
}

impl View for Info {
    type V = InfoView;

    open spec fn view(&self) -> InfoView {
        InfoView {
            video_id: self.video.id@,
            title: self.video.title@,
            duration: self.video.duration,
            registered_at: self.video.registered_at,
            user_key: self.comment.keys.user_key@,
            threads: threads_view(self.comment.threads@),
            watch_id: self.client.watch_id@,
            viewer_id: self.viewer.id,
        }
    }
}

/// The first index at or after `i` of a thread marked as the default post
/// target, if any.
pub open spec fn find_default_from(ts: Seq<CommentThreadView>, i: int) -> Option<int>
    decreases ts.len() - i,
{
    if i < 0 || i >= ts.len() {
        None
    } else if ts[i].is_default_post_target {
        Some(i)
    } else {
        find_default_from(ts, i + 1)
    }
}

/// The first index at or after `i` of a thread that requires a thread key,
/// if any.
pub open spec fn find_key_required_from(ts: Seq<CommentThreadView>, i: int) -> Option<int>
    decreases ts.len() - i,
{
    if i < 0 || i >= ts.len() {
        None
    } else if ts[i].is_thread_key_required {
        Some(i)
    } else {
        find_key_required_from(ts, i + 1)
    }
}

/// Where the default-post-target search lands: within bounds, on a marked
/// thread.
pub proof fn lemma_find_default_bounds(ts: Seq<CommentThreadView>, from: int)
    ensures
        match find_default_from(ts, from) {
            Some(i) => from <= i < ts.len() && ts[i].is_default_post_target,
            None => true,
        },
    decreases ts.len() - from,
{
    if from < 0 || from >= ts.len() {
    } else if ts[from].is_default_post_target {
    } else {
        lemma_find_default_bounds(ts, from + 1);
    }
}

impl Comment {
    /// The identifier of the thread marked as the default post target,
    /// rendered in decimal; `None` when no thread carries the mark.
    pub fn thread_id(&self) -> (r: Option<String>)
        ensures
            match (r, find_default_from(threads_view(self.threads@), 0)) {
                (Some(s), Some(i)) => s@ == dec_str(self.threads@[i]@.id as nat),
                (None, None) => true,
                _ => false,
            },
    {
        let ghost ts = threads_view(self.threads@);
        let mut i: usize = 0;
        while i < self.threads.len()
            invariant
                i <= self.threads@.len(),
                ts == threads_view(self.threads@),
                ts.len() == self.threads@.len(),
                find_default_from(ts, 0) == find_default_from(ts, i as int),
            decreases self.threads@.len() - i,
        {
            if self.threads[i].is_default_post_target {
                return Some(crate::text::u64_to_string(self.threads[i].id));
            }
            assert(find_default_from(ts, i as int) == find_default_from(ts, i + 1));
            i = i + 1;
        }
        None
    }

    /// Every thread of the video requires a thread key.
    pub fn is_thread_key_required(&self) -> (r: bool)
        ensures
            r == forall|i: int|
                0 <= i < self.threads@.len() ==> self.threads@[i]@.is_thread_key_required,
    {
        let mut i: usize = 0;
        while i < self.threads.len()
            invariant
                i <= self.threads@.len(),
                forall|j: int| 0 <= j < i ==> self.threads@[j]@.is_thread_key_required,
            decreases self.threads@.len() - i,
        {
            if !self.threads[i].is_thread_key_required {
                return false;
            }
            i = i + 1;
        }
        true
    }

    /// The first thread that requires a thread key, if any.
    pub fn thread_key_required_thread(&self) -> (r: Option<&CommentThread>)
        ensures
            match (r, find_key_required_from(threads_view(self.threads@), 0)) {
                (Some(t), Some(i)) => t@ == self.threads@[i]@,
                (None, None) => true,
                _ => false,
            },
    {
        let ghost ts = threads_view(self.threads@);
        let mut i: usize = 0;
        while i < self.threads.len()
            invariant
                i <= self.threads@.len(),
                ts == threads_view(self.threads@),
                ts.len() == self.threads@.len(),
                find_key_required_from(ts, 0) == find_key_required_from(ts, i as int),
            decreases self.threads@.len() - i,
        {
            if self.threads[i].is_thread_key_required {
                return Some(&self.threads[i]);
            }
            assert(find_key_required_from(ts, i as int) == find_key_required_from(ts, i + 1));
            i = i + 1;
        }
        None
    }
}

} // verus!
