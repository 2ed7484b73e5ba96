//! Suppression of repeated log messages.
//!
//! A daemon that runs for months turns any per-cycle warning into an unbounded
//! log. This is the backstop that keeps a recurring condition from doing so.
use vstd::prelude::*;

use crate::text::same_text;
use crate::time::{elapsed, span, Nanos};

verus! {

/// Upper bound on remembered messages.
pub const MAX_ENTRIES: usize = 1024;

/// What a suppressed message is about, so unrelated conditions do not silence
/// each other.
#[derive(Debug)]
pub struct LogKey {
    pub app_id: String,
    pub pid: Option<u32>,
    pub kind: &'static str,
}

/// What a [`LogKey`] says.
pub ghost struct Topic {
    pub app_id: Seq<char>,
    pub pid: Option<u32>,
    pub kind: Seq<char>,
}

impl View for LogKey {
    type V = Topic;

    open spec fn view(&self) -> Topic {
        Topic { app_id: self.app_id@, pid: self.pid, kind: self.kind@ }
    }
}

impl LogKey {
    /// A message about an application.
    pub fn app(app_id: &str, kind: &'static str) -> (r: Self)
        ensures
            r@ == (Topic { app_id: app_id@, pid: None, kind: kind@ }),
    {
        LogKey { app_id: app_id.to_owned(), pid: None, kind }
    }

    /// A message about one process of an application.
    pub fn pid(app_id: &str, pid: u32, kind: &'static str) -> (r: Self)
        ensures
            r@ == (Topic { app_id: app_id@, pid: Some(pid), kind: kind@ }),
    {
        LogKey { app_id: app_id.to_owned(), pid: Some(pid), kind }
    }

    /// A copy of the key.
    pub fn copy(&self) -> (r: Self)
        ensures
            r@ == self@,
    {
        LogKey { app_id: self.app_id.clone(), pid: self.pid, kind: self.kind }
    }

    fn same(&self, other: &LogKey) -> (r: bool)
        ensures
            r == (self@ == other@),
    {
        let pid_same = match (self.pid, other.pid) {
            (Some(a), Some(b)) => a == b,
            (None, None) => true,
            _ => false,
        };
        pid_same && same_text(&self.app_id, &other.app_id) && same_text(self.kind, other.kind)
    }
}

/// Decides whether a given message should be emitted now.
#[derive(Debug)]
pub struct RateLimiter {
    window: Nanos,
    seen: Vec<(LogKey, Nanos)>,
}

/// A message that was emitted, and when.
pub type Seen = (Topic, Nanos);

/// The messages that are still remembered at `now`: those emitted less than
/// `window` ago, of which at most the last [`MAX_ENTRIES`] are kept.
pub open spec fn remembered(seen: Seq<Seen>, window: Nanos, now: Nanos) -> Seq<Seen> {
    let live = seen.filter(|s: Seen| span(s.1, now) < window);
    if live.len() <= MAX_ENTRIES {
        live
    } else {
        live.skip(live.len() - MAX_ENTRIES)
    }
}

/// Whether a message on `topic` is among `seen`.
pub open spec fn on_topic(seen: Seq<Seen>, topic: Topic) -> bool {
    exists|i: int| 0 <= i < seen.len() && (#[trigger] seen[i]).0 == topic
}

/// Whether a message may be emitted at `now`.
pub open spec fn allowed(seen: Seq<Seen>, window: Nanos, topic: Topic, now: Nanos) -> bool {
    !on_topic(remembered(seen, window, now), topic)
}

/// What is remembered after asking for a message on `topic` at `now`.
pub open spec fn after_asking(seen: Seq<Seen>, window: Nanos, topic: Topic, now: Nanos) -> Seq<
    Seen,
> {
    let s = remembered(seen, window, now);
    if on_topic(s, topic) {
        s
    } else {
        s.push((topic, now))
    }
}

/// What is remembered after an application was forgotten.
pub open spec fn forgotten(seen: Seq<Seen>, app_id: Seq<char>) -> Seq<Seen> {
    seen.filter(|s: Seen| s.0.app_id != app_id)
}

/// The view of a list of remembered messages.
pub open spec fn seen_view(v: Seq<(LogKey, Nanos)>) -> Seq<Seen> {
    v.map_values(|p: (LogKey, Nanos)| (p.0@, p.1))
}

proof fn lemma_seen_filter_step(s: Seq<Seen>, keep: spec_fn(Seen) -> bool, i: int)
    requires
        0 <= i < s.len(),
    ensures
        s.take(i + 1).filter(keep) == (if keep(s[i]) {
            s.take(i).filter(keep).push(s[i])
        } else {
            s.take(i).filter(keep)
        }),
{
    reveal(Seq::filter);
    assert(s.take(i + 1).drop_last() =~= s.take(i));
}

impl View for RateLimiter {
    type V = Seq<Seen>;

    /// The remembered messages, oldest first.
    closed spec fn view(&self) -> Seq<Seen> {
        seen_view(self.seen@)
    }
}

impl RateLimiter {
    /// For how long a message is suppressed after it was emitted.
    pub closed spec fn suppression(&self) -> Nanos {
        self.window
    }

    /// A limiter that has seen nothing.
    pub fn new(window: Nanos) -> (r: Self)
        ensures
            r@ == Seq::<Seen>::empty(),
            r.suppression() == window,
    {
        let r = RateLimiter { window, seen: Vec::new() };
        proof {
            assert(r@ =~= Seq::empty());
        }
        r
    }

    /// Number of remembered messages.
    pub fn len(&self) -> (r: usize)
        ensures
            r == self@.len(),
    {
        self.seen.len()
    }

    fn evict(&mut self, now: Nanos)
        ensures
            final(self)@ == remembered(old(self)@, old(self).suppression(), now),
            final(self).suppression() == old(self).suppression(),
    {
        let ghost before = self@;
        let window = self.window;
        let ghost keep = |s: Seen| span(s.1, now) < window;
        let mut live: Vec<(LogKey, Nanos)> = Vec::new();
        let mut i: usize = 0;
        proof {
            reveal(Seq::filter);
            assert(seen_view(live@) =~= before.take(0).filter(keep));
        }
        while i < self.seen.len()
            invariant
                i <= self.seen@.len(),
                before == seen_view(self.seen@),
                window == self.window,
                self.window == old(self).window,
                keep == (|s: Seen| span(s.1, now) < window),
                seen_view(live@) == before.take(i as int).filter(keep),
            decreases self.seen@.len() - i,
        {
            let ghost had = seen_view(live@);
            proof {
                lemma_seen_filter_step(before, keep, i as int);
                assert(before[i as int] == (self.seen@[i as int].0@, self.seen@[i as int].1));
            }
            let at = self.seen[i].1;
            if elapsed(at, now) < window {
                live.push((self.seen[i].0.copy(), at));
                proof {
                    assert(seen_view(live@) =~= had.push(before[i as int]));
                }
            }
            i = i + 1;
        }
        proof {
            assert(before.take(before.len() as int) =~= before);
        }
        let ghost all = seen_view(live@);
        if live.len() > MAX_ENTRIES {
            let start: usize = live.len() - MAX_ENTRIES;
            let mut kept: Vec<(LogKey, Nanos)> = Vec::new();
            let mut j: usize = start;
            proof {
                assert(seen_view(kept@) =~= all.subrange(start as int, start as int));
            }
            while j < live.len()
                invariant
                    start <= j <= live@.len(),
                    all == seen_view(live@),
                    seen_view(kept@) == all.subrange(start as int, j as int),
                decreases live@.len() - j,
            {
                let ghost had = seen_view(kept@);
                kept.push((live[j].0.copy(), live[j].1));
                proof {
                    assert(all[j as int] == (live@[j as int].0@, live@[j as int].1));
                    assert(seen_view(kept@) =~= had.push(all[j as int]));
                    assert(all.subrange(start as int, j + 1) =~= all.subrange(
                        start as int,
                        j as int,
                    ).push(all[j as int]));
                }
                j = j + 1;
            }
            proof {
                assert(all.subrange(start as int, all.len() as int) =~= all.skip(start as int));
            }
            self.seen = kept;
        } else {
            self.seen = live;
        }
    }

    /// Whether this message may be logged now.
    ///
    /// True the first time a key is seen and again once the window has elapsed.
    pub fn allow(&mut self, key: LogKey, now: Nanos) -> (r: bool)
        ensures
            r == allowed(old(self)@, old(self).suppression(), key@, now),
            final(self)@ == after_asking(old(self)@, old(self).suppression(), key@, now),
            final(self).suppression() == old(self).suppression(),
    {
        self.evict(now);
        let ghost s = self@;
        let ghost topic = key@;
        let mut i: usize = 0;
        while i < self.seen.len()
            invariant
                i <= self.seen@.len(),
                s == seen_view(self.seen@),
                topic == key@,
                s == remembered(old(self)@, old(self).suppression(), now),
                self.window == old(self).window,
                forall|j: int| 0 <= j < i ==> (#[trigger] s[j]).0 != topic,
            decreases self.seen@.len() - i,
        {
            proof {
                assert(s[i as int].0 == self.seen@[i as int].0@);
            }
            if self.seen[i].0.same(&key) {
                proof {
                    assert(on_topic(s, topic));
                }
                return false;
            }
            i = i + 1;
        }
        proof {
            assert(!on_topic(s, topic));
        }
        self.seen.push((key, now));
        proof {
            assert(self@ =~= s.push((topic, now)));
        }
        true
    }

    /// Forgets an application, so a recurrence after the condition is resolved
    /// is reported immediately.
    pub fn forget_app(&mut self, app_id: &str)
        ensures
            final(self)@ == forgotten(old(self)@, app_id@),
            final(self).suppression() == old(self).suppression(),
    {
        let ghost before = self@;
        let ghost keep = |s: Seen| s.0.app_id != app_id@;
        let mut kept: Vec<(LogKey, Nanos)> = Vec::new();
        let mut i: usize = 0;
        proof {
            reveal(Seq::filter);
            assert(seen_view(kept@) =~= before.take(0).filter(keep));
        }
        while i < self.seen.len()
            invariant
                i <= self.seen@.len(),
                before == seen_view(self.seen@),
                keep == (|s: Seen| s.0.app_id != app_id@),
                seen_view(kept@) == before.take(i as int).filter(keep),
            decreases self.seen@.len() - i,
        {
            let ghost had = seen_view(kept@);
            proof {
                lemma_seen_filter_step(before, keep, i as int);
                assert(before[i as int] == (self.seen@[i as int].0@, self.seen@[i as int].1));
            }
            if !same_text(&self.seen[i].0.app_id, app_id) {
                kept.push((self.seen[i].0.copy(), self.seen[i].1));
                proof {
                    assert(seen_view(kept@) =~= had.push(before[i as int]));
                }
            }
            i = i + 1;
        }
        proof {
            assert(before.take(before.len() as int) =~= before);
        }
        self.seen = kept;
    }
}

// --- Laws ---

proof fn lemma_seen_filter(s: Seq<Seen>, keep: spec_fn(Seen) -> bool)
    ensures
        s.filter(keep).len() <= s.len(),
        forall|i: int| 0 <= i < s.filter(keep).len() ==> keep(#[trigger] s.filter(keep)[i]),
        forall|x: Seen| #[trigger] s.filter(keep).contains(x) <==> s.contains(x) && keep(x),
    decreases s.len(),
{
    reveal(Seq::filter);
    if s.len() > 0 {
        let t = s.drop_last();
        lemma_seen_filter(t, keep);
        assert(s =~= t.push(s.last()));
        assert forall|x: Seen| #[trigger] s.filter(keep).contains(x) <==> s.contains(x) && keep(
            x,
        ) by {
            vstd::seq_lib::lemma_seq_contains_after_push(t, s.last(), x);
            vstd::seq_lib::lemma_seq_contains_after_push(t.filter(keep), s.last(), x);
        }
        assert forall|i: int| 0 <= i < s.filter(keep).len() implies keep(
            #[trigger] s.filter(keep)[i],
        ) by {
            if i < t.filter(keep).len() {
                assert(s.filter(keep)[i] == t.filter(keep)[i]);
            }
        }
    }
}

/// A topic that was never seen passes, and a repeat within the window is
/// suppressed.
pub proof fn first_passes_repeat_is_suppressed(
    seen: Seq<Seen>,
    window: Nanos,
    topic: Topic,
    first: Nanos,
    again: Nanos,
)
    requires
        !on_topic(seen, topic),
        span(first, again) < window,
    ensures
        allowed(seen, window, topic, first),
        !allowed(after_asking(seen, window, topic, first), window, topic, again),
{
    let keep = |s: Seen| span(s.1, first) < window;
    let live = seen.filter(keep);
    lemma_seen_filter(seen, keep);
    let s = remembered(seen, window, first);
    assert(!on_topic(s, topic)) by {
        if on_topic(s, topic) {
            let i = choose|i: int| 0 <= i < s.len() && (#[trigger] s[i]).0 == topic;
            let off = live.len() - s.len();
            assert(s[i] == live[i + off]);
            assert(live.contains(s[i]));
            assert(seen.contains(s[i]));
            let j = choose|j: int| 0 <= j < seen.len() && seen[j] == s[i];
            assert(seen[j].0 == topic);
        }
    }
    let t = s.push((topic, first));
    let keep2 = |s: Seen| span(s.1, again) < window;
    reveal(Seq::filter);
    assert(t.drop_last() =~= s);
    let live2 = t.filter(keep2);
    assert(live2.last() == (topic, first));
    let u = remembered(t, window, again);
    assert(u.last() == (topic, first));
    assert(u[u.len() - 1].0 == topic);
}

/// However many messages there are, at most one more than the cap is
/// remembered.
pub proof fn memory_is_bounded(seen: Seq<Seen>, window: Nanos, topic: Topic, now: Nanos)
    ensures
        after_asking(seen, window, topic, now).len() <= MAX_ENTRIES + 1,
{
}

/// A message whose last emission lies a whole window back passes again.
pub proof fn expired_passes_again(seen: Seq<Seen>, window: Nanos, topic: Topic, now: Nanos)
    requires
        forall|i: int|
            0 <= i < seen.len() && (#[trigger] seen[i]).0 == topic ==> span(seen[i].1, now)
                >= window,
    ensures
        allowed(seen, window, topic, now),
{
    let keep = |s: Seen| span(s.1, now) < window;
    lemma_seen_filter(seen, keep);
    let live = seen.filter(keep);
    let s = remembered(seen, window, now);
    if on_topic(s, topic) {
        let i = choose|i: int| 0 <= i < s.len() && (#[trigger] s[i]).0 == topic;
        let off = live.len() - s.len();
        assert(s[i] == live[i + off]);
        assert(live.contains(s[i]));
        let j = choose|j: int| 0 <= j < seen.len() && seen[j] == s[i];
        assert(keep(live[i + off]));
        assert(false);
    }
}

/// Forgetting an application clears its topics and no others.
pub proof fn forgetting_is_selective(seen: Seq<Seen>, app_id: Seq<char>, topic: Topic)
    ensures
        on_topic(forgotten(seen, app_id), topic) <==> on_topic(seen, topic) && topic.app_id
            != app_id,
{
    let keep = |s: Seen| s.0.app_id != app_id;
    lemma_seen_filter(seen, keep);
    let kept = forgotten(seen, app_id);
    if on_topic(kept, topic) {
        let i = choose|i: int| 0 <= i < kept.len() && (#[trigger] kept[i]).0 == topic;
        assert(kept.contains(kept[i]));
        let j = choose|j: int| 0 <= j < seen.len() && seen[j] == kept[i];
        assert(seen[j].0 == topic);
    }
    if on_topic(seen, topic) && topic.app_id != app_id {
        let j = choose|j: int| 0 <= j < seen.len() && (#[trigger] seen[j]).0 == topic;
        assert(seen.contains(seen[j]));
        assert(kept.contains(seen[j]));
        let i = choose|i: int| 0 <= i < kept.len() && kept[i] == seen[j];
        assert(kept[i].0 == topic);
    }
}

/// What is remembered was logged, less than a window ago; and as long as the bound is
/// not reached all of that is remembered.
pub proof fn the_recent_is_remembered(seen: Seq<Seen>, window: Nanos, now: Nanos, s: Seen)
    ensures
        remembered(seen, window, now).contains(s) ==> seen.contains(s) && span(s.1, now) < window,
        seen.len() <= MAX_ENTRIES && seen.contains(s) && span(s.1, now) < window ==> remembered(
            seen,
            window,
            now,
        ).contains(s),
{
    let keep = |x: Seen| span(x.1, now) < window;
    let live = seen.filter(keep);
    lemma_seen_filter(seen, keep);
    let r = remembered(seen, window, now);
    if r.contains(s) {
        let i = choose|i: int| 0 <= i < r.len() && r[i] == s;
        let off = live.len() - r.len();
        assert(live[i + off] == s);
        assert(live.contains(s));
        assert(seen.contains(s) && keep(s));
    }
    if seen.len() <= MAX_ENTRIES && seen.contains(s) && span(s.1, now) < window {
        assert(keep(s));
        assert(live.contains(s));
    }
}

/// A message is suppressed exactly where one on its topic was logged less than a window
/// ago.
pub proof fn only_recent_repeats_are_suppressed(
    seen: Seq<Seen>,
    window: Nanos,
    topic: Topic,
    now: Nanos,
)
    requires
        seen.len() <= MAX_ENTRIES,
    ensures
        !allowed(seen, window, topic, now) <==> exists|i: int|
            0 <= i < seen.len() && (#[trigger] seen[i]).0 == topic && span(seen[i].1, now) < window,
{
    let r = remembered(seen, window, now);
    if on_topic(r, topic) {
        let i = choose|i: int| 0 <= i < r.len() && (#[trigger] r[i]).0 == topic;
        assert(r.contains(r[i]));
        the_recent_is_remembered(seen, window, now, r[i]);
        let j = choose|j: int| 0 <= j < seen.len() && seen[j] == r[i];
        assert(seen[j].0 == topic);
    }
    if exists|i: int|
        0 <= i < seen.len() && (#[trigger] seen[i]).0 == topic && span(seen[i].1, now) < window {
        let i = choose|i: int|
            0 <= i < seen.len() && (#[trigger] seen[i]).0 == topic && span(seen[i].1, now) < window;
        assert(seen.contains(seen[i]));
        the_recent_is_remembered(seen, window, now, seen[i]);
        let j = choose|j: int| 0 <= j < r.len() && r[j] == seen[i];
        assert(r[j].0 == topic);
    }
}

/// A message that passes is remembered from now on; one that is suppressed is not, so
/// that repeating it does not keep it suppressed.
pub proof fn suppression_does_not_renew_itself(
    seen: Seq<Seen>,
    window: Nanos,
    topic: Topic,
    now: Nanos,
)
    ensures
        allowed(seen, window, topic, now) ==> after_asking(seen, window, topic, now).last() == (
            topic,
            now,
        ),
        !allowed(seen, window, topic, now) ==> forall|s: Seen| #[trigger]
            after_asking(seen, window, topic, now).contains(s) ==> seen.contains(s),
{
    if !allowed(seen, window, topic, now) {
        assert forall|s: Seen| #[trigger]
            after_asking(seen, window, topic, now).contains(s) implies seen.contains(s) by {
            the_recent_is_remembered(seen, window, now, s);
        }
    }
}

/// Forgetting an application takes exactly what was logged of it.
pub proof fn forgetting_takes_only_its_own(seen: Seq<Seen>, app_id: Seq<char>, s: Seen)
    ensures
        forgotten(seen, app_id).contains(s) <==> seen.contains(s) && s.0.app_id != app_id,
{
    let keep = |x: Seen| x.0.app_id != app_id;
    lemma_seen_filter(seen, keep);
    if seen.contains(s) && s.0.app_id != app_id {
        assert(keep(s));
    }
    if forgotten(seen, app_id).contains(s) {
        assert(keep(s));
    }
}

} // verus!
