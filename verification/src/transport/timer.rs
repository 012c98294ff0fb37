use std::collections::HashMap;
use vstd::prelude::*;

use super::manager::{TaskMsg, TaskView};

verus! {

/// The number that names a timer, so that it can be cancelled.
pub type TimerToken = u32;

/// What the manager asks of the timer.  Times are in microseconds on the
/// clock of whoever runs the timer.
pub enum TimerCmd {
    /// Set up a timer started at the first time that times out after the
    /// second; when it does, the task goes to the manager.
    New(u64, u64, TaskMsg),
    Cancel(TimerToken),
}

/// One timer that is set up.
pub struct TimerEntry {
    pub instant: u64,
    pub time_lim: u64,
    pub callback: TaskMsg,
}

pub struct TimerEntryView {
    pub instant: u64,
    pub time_lim: u64,
    pub callback: TaskView,
}

impl View for TimerEntry {
    type V = TimerEntryView;

    open spec fn view(&self) -> TimerEntryView {
        TimerEntryView { instant: self.instant, time_lim: self.time_lim, callback: self.callback@ }
    }
}

/// The timers that are set up, by their tokens, and the token the next one
/// gets.
pub struct Timer {
    pub timer_list: HashMap<TimerToken, TimerEntry>,
    pub token_base: u32,
}

pub struct TimerView {
    pub timers: Map<TimerToken, TimerEntryView>,
    pub token_base: u32,
}

impl View for Timer {
    type V = TimerView;

    open spec fn view(&self) -> TimerView {
        TimerView {
            timers: self.timer_list@.map_values(|e: TimerEntry| e@),
            token_base: self.token_base,
        }
    }
}

/// A timer has timed out at `now` when its time limit has passed since it
/// was started.
pub open spec fn timed_out(e: TimerEntryView, now: u64) -> bool {
    now >= e.instant + e.time_lim
}

impl TimerView {
    /// Every token in use was handed out before the next one.
    pub open spec fn wf(self) -> bool {
        forall|t: TimerToken| #[trigger] self.timers.contains_key(t) ==> t < self.token_base
    }

    /// Some timer that is set up has the token `t`.
    pub open spec fn has_token(self, t: TimerToken) -> bool {
        self.timers.contains_key(t)
    }

    /// The tokens of the timers that have timed out at `now`.
    pub open spec fn fired(self, now: u64) -> Set<TimerToken> {
        Set::new(|t: TimerToken| self.timers.contains_key(t) && timed_out(self.timers[t], now))
    }
}

/// Pushing onto a sequence adds the element to its set, and keeps it free of
/// duplicates when the element was not there yet.
proof fn lemma_push_to_set(s: Seq<TimerToken>, a: TimerToken)
    ensures
        s.push(a).to_set() == s.to_set().insert(a),
        s.no_duplicates() && !s.contains(a) ==> s.push(a).no_duplicates(),
{
    let s2 = s.push(a);
    assert forall|x: TimerToken| s2.to_set().contains(x) <==> s.to_set().insert(a).contains(x) by {
        if s.to_set().contains(x) {
            let i = choose|i: int| 0 <= i < s.len() && s[i] == x;
            assert(s2[i] == x);
        }
        if x == a {
            assert(s2[s.len() as int] == a);
        }
        if s2.to_set().contains(x) {
            let i = choose|i: int| 0 <= i < s2.len() && s2[i] == x;
            if i < s.len() {
                assert(s[i] == x);
            }
        }
    }
    assert(s2.to_set() =~= s.to_set().insert(a));
    if s.no_duplicates() && !s.contains(a) {
        assert forall|i: int, j: int| 0 <= i < s2.len() && 0 <= j < s2.len() && i != j implies s2[i] != s2[j] by {
            if i < s.len() && j < s.len() {
                assert(s2[i] == s[i] && s2[j] == s[j]);
            } else if i < s.len() {
                assert(s2[i] == s[i]);
            } else if j < s.len() {
                assert(s2[j] == s[j]);
            }
        }
    }
}

impl Timer {
    /// A timer with nothing set up.
    pub fn new() -> (r: Self)
        ensures
            r@.timers == Map::<TimerToken, TimerEntryView>::empty(),
            r@.token_base == 0,
            r@.wf(),
    {
        let r = Timer { timer_list: HashMap::new(), token_base: 0 };
        assert(r@.timers =~= Map::<TimerToken, TimerEntryView>::empty());
        r
    }

    /// Sets up a timer started at `instant` that times out after
    /// `time_lim`, and hands out its token: the next one in turn.
    pub fn add_timer(&mut self, instant: u64, time_lim: u64, callback: TaskMsg) -> (t: TimerToken)
        requires
            old(self)@.wf(),
            old(self).token_base < u32::MAX,
        ensures
            final(self)@.wf(),
            t == old(self)@.token_base,
            !old(self)@.has_token(t),
            final(self)@.token_base == t + 1,
            final(self)@.timers == old(self)@.timers.insert(
                t,
                TimerEntryView { instant, time_lim, callback: callback@ },
            ),
    {
        let new_token = self.token_base;
        self.token_base = self.token_base + 1;
        let e = TimerEntry { instant, time_lim, callback };
        let ghost ev = e@;
        self.timer_list.insert(new_token, e);
        assert(self@.timers =~= old(self)@.timers.insert(new_token, ev));
        new_token
    }

    /// Removes the timer with the token `token`, if one is set up.
    pub fn cancel(&mut self, token: TimerToken)
        requires
            old(self)@.wf(),
        ensures
            final(self)@.wf(),
            final(self)@.token_base == old(self)@.token_base,
            final(self)@.timers == old(self)@.timers.remove(token),
            !final(self)@.has_token(token),
    {
        self.timer_list.remove(&token);
        assert(self@.timers =~= old(self)@.timers.remove(token));
    }

    /// The tokens of the timers that have timed out at `now`, each at least
    /// once, in the order the table is walked.
    fn timed_out_tokens(&self, now: u64) -> (r: Vec<TimerToken>)
        ensures
            r@.to_set() == self@.fired(now),
    {
        let mut outs: Vec<TimerToken> = Vec::new();
        for k in it: self.timer_list.keys()
            invariant
                it.seq().unref().to_set() == self.timer_list@.dom(),
                forall|j: int| 0 <= j < it.seq().len() ==> self@.timers.contains_key(#[trigger] it.seq().unref()[j]),
                forall|q: TimerToken| #[trigger] self@.timers.contains_key(q) ==> exists|j: int| 0 <= j < it.seq().len() && *it.seq()[j] == q,
                forall|j: int| #![trigger it.seq()[j]] 0 <= j < it.seq().len() ==> it.seq().unref()[j] == *it.seq()[j],
                forall|j: int| 0 <= j < it.index() && timed_out(self@.timers[*it.seq()[j]], now)
                    ==> outs@.contains(#[trigger] *it.seq()[j]),
                forall|x: TimerToken| outs@.contains(x) ==> #[trigger] self@.fired(now).contains(x),
                it.index() == it.seq().len() ==> outs@.to_set() == self@.fired(now),
        {
            let e = self.timer_list.get(k).unwrap();
            let ghost o = outs@;
            assert(self@.timers[*k] == e@);
            if (now as u128) >= (e.instant as u128) + (e.time_lim as u128) {
                // we got a time out
                outs.push(*k);
                assert(outs@[o.len() as int] == *k);
                assert forall|x: TimerToken| o.contains(x) implies outs@.contains(x) by {
                    let i = choose|i: int| 0 <= i < o.len() && o[i] == x;
                    assert(outs@[i] == x);
                }
                assert forall|x: TimerToken| outs@.contains(x) implies #[trigger] self@.fired(now).contains(x) by {
                    let i = choose|i: int| 0 <= i < outs@.len() && outs@[i] == x;
                    if i < o.len() {
                        assert(o[i] == x);
                    }
                }
            }
        }
        outs
    }

    /// Takes out the timers that have timed out at `now` and hands back
    /// their tasks, one for each such timer, in the order the table is
    /// walked; the others stay set up.
    pub fn check_timers(&mut self, now: u64) -> (r: Vec<TaskMsg>)
        requires
            old(self)@.wf(),
        ensures
            final(self)@.wf(),
            final(self)@.token_base == old(self)@.token_base,
            final(self)@.timers == old(self)@.timers.remove_keys(old(self)@.fired(now)),
            exists|ts: Seq<TimerToken>| {
                &&& ts.no_duplicates()
                &&& ts.to_set() == old(self)@.fired(now)
                &&& r@.map_values(|t: TaskMsg| t@) == ts.map_values(
                    |t: TimerToken| old(self)@.timers[t].callback,
                )
            },
    {
        let ghost m0 = old(self)@.timers;
        let outs = self.timed_out_tokens(now);
        let mut time_outs: Vec<TaskMsg> = Vec::new();
        let ghost mut ts: Seq<TimerToken> = Seq::empty();
        let mut i: usize = 0;
        while i < outs.len()
            invariant
                i <= outs@.len(),
                outs@.to_set() == old(self)@.fired(now),
                m0 == old(self)@.timers,
                self.token_base == old(self).token_base,
                old(self)@.wf(),
                ts.no_duplicates(),
                ts.to_set() == outs@.take(i as int).to_set(),
                self@.timers == m0.remove_keys(ts.to_set()),
                time_outs@.map_values(|t: TaskMsg| t@) == ts.map_values(|t: TimerToken| m0[t].callback),
            decreases outs@.len() - i,
        {
            let t = outs[i];
            let ghost pre_outs = time_outs@.map_values(|t: TaskMsg| t@);
            let ghost pre = self@.timers;
            assert(outs@.take(i + 1) =~= outs@.take(i as int).push(t));
            proof {
                lemma_push_to_set(outs@.take(i as int), t);
                assert(outs@.to_set().contains(outs@[i as int]));
            }
            match self.timer_list.remove(&t) {
                Some(e) => {
                    let ghost ev = e@;
                    assert(self@.timers =~= pre.remove(t));
                    time_outs.push(e.callback);
                    proof {
                        assert(pre.contains_key(t));
                        assert(ev == pre[t]);
                        assert(pre[t] == m0[t]);
                        assert(!ts.to_set().contains(t));
                        assert(!ts.contains(t));
                        lemma_push_to_set(ts, t);
                        let ts2 = ts.push(t);
                        assert(ts2.map_values(|t: TimerToken| m0[t].callback) =~= ts.map_values(
                            |t: TimerToken| m0[t].callback,
                        ).push(m0[t].callback));
                        assert(time_outs@.map_values(|t: TaskMsg| t@) =~= pre_outs.push(ev.callback));
                        ts = ts2;
                    }
                },
                None => {
                    assert(self@.timers =~= pre);
                    assert(!pre.contains_key(t));
                    assert(ts.to_set().contains(t));
                },
            }
            i = i + 1;
            assert(ts.to_set() =~= outs@.take(i as int).to_set());
            assert(self@.timers =~= m0.remove_keys(ts.to_set()));
        }
        assert(outs@.take(outs@.len() as int) =~= outs@);
        time_outs
    }

    /// Handles one command: a new timer hands out its token, a cancel hands
    /// out nothing.
    pub fn handle_cmd(&mut self, cmd: TimerCmd) -> (r: Option<TimerToken>)
        requires
            old(self)@.wf(),
            cmd is New ==> old(self).token_base < u32::MAX,
        ensures
            final(self)@.wf(),
            match cmd {
                TimerCmd::New(instant, time_lim, callback) => r == Some(old(self)@.token_base)
                    && final(self)@.token_base == old(self)@.token_base + 1
                    && final(self)@.timers == old(self)@.timers.insert(
                    old(self)@.token_base,
                    TimerEntryView { instant, time_lim, callback: callback@ },
                ),
                TimerCmd::Cancel(token) => r is None && final(self)@.token_base
                    == old(self)@.token_base && final(self)@.timers == old(self)@.timers.remove(
                    token,
                ) && !final(self)@.has_token(token),
            },
    {
        match cmd {
            TimerCmd::New(instant, duration, callback) => Some(
                self.add_timer(instant, duration, callback),
            ),
            TimerCmd::Cancel(token) => {
                // remove the timer entry
                self.cancel(token);
                None
            },
        }
    }
}

} // verus!
