//! The track-identity debounce engine: decides, from a stream of noisy
//! playback samples, exactly when a play has legitimately occurred.

use vstd::prelude::*;
use crate::song::{SongData, SongKey};
use crate::date::Date;
use crate::store::{Store, spec_commit};

verus! {

/// The playback status reported with each sample.
#[derive(Clone, Copy, Debug, PartialEq, Eq, Structural)]
pub enum PlaybackStatus {
    Playing,
    Paused,
    Stopped,
}

/// One observation of the media session: the current track identity (possibly
/// invalid when metadata is missing), the playback status, the sampling time
/// in milliseconds, and the calendar date at the moment of the sample.
#[derive(Debug)]
pub struct Sample {
    pub data: SongData,
    pub status: PlaybackStatus,
    pub now_ms: u64,
    pub date: Date,
}

/// The listening session currently under observation: the identity, how long
/// it has been playing, whether its play has already been committed, and the
/// date on which the session started.
#[derive(Debug)]
pub struct Session {
    pub data: SongData,
    pub elapsed_ms: u64,
    pub committed: bool,
    pub date: Date,
}

/// The tracker: a configured threshold, the current session if any, and the
/// time of the previous sample.
#[derive(Debug)]
pub struct Tracker {
    pub threshold_ms: u64,
    pub session: Option<Session>,
    pub last_ms: u64,
}

/// The mathematical value of a sample.
#[verifier::ext_equal]
pub struct SampleModel {
    pub key: SongKey,
    pub status: PlaybackStatus,
    pub now_ms: nat,
    pub date: Date,
}

/// The mathematical value of a session.
#[verifier::ext_equal]
pub struct SessionModel {
    pub key: SongKey,
    pub elapsed: nat,
    pub committed: bool,
    pub date: Date,
}

/// The mathematical value of the tracker.
#[verifier::ext_equal]
pub struct TrackerModel {
    pub threshold: nat,
    pub session: Option<SessionModel>,
    pub last_ms: nat,
}

/// A commit the tracker asks for: record one play of `key` on `date`.
#[verifier::ext_equal]
pub struct CommitRequest {
    pub key: SongKey,
    pub date: Date,
}

impl View for Sample {
    type V = SampleModel;

    open spec fn view(&self) -> SampleModel {
        SampleModel {
            key: self.data@,
            status: self.status,
            now_ms: self.now_ms as nat,
            date: self.date,
        }
    }
}

impl View for Session {
    type V = SessionModel;

    open spec fn view(&self) -> SessionModel {
        SessionModel {
            key: self.data@,
            elapsed: self.elapsed_ms as nat,
            committed: self.committed,
            date: self.date,
        }
    }
}

impl View for Tracker {
    type V = TrackerModel;

    open spec fn view(&self) -> TrackerModel {
        TrackerModel {
            threshold: self.threshold_ms as nat,
            session: match self.session {
                Some(ref s) => Some(s@),
                None => None,
            },
            last_ms: self.last_ms as nat,
        }
    }
}

impl TrackerModel {
    /// The tracker's invariant: a session's elapsed time never exceeds the
    /// time of the previous sample, its identity is valid and its date
    /// well-formed.
    pub open spec fn wf(self) -> bool {
        match self.session {
            Some(sess) => sess.elapsed <= self.last_ms && sess.key.valid() && sess.date.wf(),
            None => true,
        }
    }
}

/// The transition of the tracker on one sample, and the commit it asks for,
/// if any:
/// - an invalid identity freezes the current session: nothing accrues and
///   nothing is committed;
/// - the current session's own identity accrues elapsed time while playing,
///   and asks for a commit exactly when the threshold is first reached;
/// - a different valid identity abandons the current session as it stands —
///   no partial credit — and starts a fresh one dated at that sample.
pub open spec fn spec_step(t: TrackerModel, s: SampleModel) -> (TrackerModel, Option<CommitRequest>) {
    if !s.key.valid() {
        (TrackerModel { last_ms: s.now_ms, ..t }, None)
    } else {
        let same = match t.session {
            Some(sess) => sess.key == s.key,
            None => false,
        };
        if !same {
            (
                TrackerModel {
                    session: Some(
                        SessionModel { key: s.key, elapsed: 0, committed: false, date: s.date },
                    ),
                    last_ms: s.now_ms,
                    ..t
                },
                None,
            )
        } else {
            let sess = t.session->Some_0;
            if s.status is Playing {
                let delta: nat = if s.now_ms >= t.last_ms {
                    (s.now_ms - t.last_ms) as nat
                } else {
                    0
                };
                let elapsed2: nat = sess.elapsed + delta;
                if elapsed2 >= t.threshold && !sess.committed {
                    (
                        TrackerModel {
                            session: Some(
                                SessionModel { elapsed: elapsed2, committed: true, ..sess },
                            ),
                            last_ms: s.now_ms,
                            ..t
                        },
                        Some(CommitRequest { key: sess.key, date: sess.date }),
                    )
                } else {
                    (
                        TrackerModel {
                            session: Some(SessionModel { elapsed: elapsed2, ..sess }),
                            last_ms: s.now_ms,
                            ..t
                        },
                        None,
                    )
                }
            } else {
                (TrackerModel { last_ms: s.now_ms, ..t }, None)
            }
        }
    }
}

/// The commit a step returns, as a model value.
pub open spec fn commit_model(c: Option<(SongData, Date)>) -> Option<CommitRequest> {
    match c {
        Some(p) => Some(CommitRequest { key: p.0@, date: p.1 }),
        None => None,
    }
}

impl Tracker {
    /// A tracker with no session yet, configured with the commit threshold
    /// and the current time.
    pub fn new(threshold_ms: u64, now_ms: u64) -> (t: Tracker)
        ensures
            t@ == (TrackerModel {
                threshold: threshold_ms as nat,
                session: None,
                last_ms: now_ms as nat,
            }),
            t@.wf(),
    {
        Tracker { threshold_ms, session: None, last_ms: now_ms }
    }

    /// Feeds one sample to the tracker and returns the commit it asks for,
    /// if the sample completes a session's minimum playtime.
    pub fn step(&mut self, sample: &Sample) -> (c: Option<(SongData, Date)>)
        requires
            old(self)@.wf(),
            sample.now_ms >= old(self).last_ms,
            sample.date.wf(),
        ensures
            final(self)@.wf(),
            final(self)@ == spec_step(old(self)@, sample@).0,
            commit_model(c) == spec_step(old(self)@, sample@).1,
    {
        let ghost t0 = self@;
        if !sample.data.is_valid() {
            self.last_ms = sample.now_ms;
            proof {
                assert(self@ =~~= spec_step(t0, sample@).0);
            }
            return None;
        }
        let same = match &self.session {
            Some(sess) => sess.data == sample.data,
            None => false,
        };
        if !same {
            self.session = Some(
                Session {
                    data: sample.data.clone(),
                    elapsed_ms: 0,
                    committed: false,
                    date: sample.date,
                },
            );
            self.last_ms = sample.now_ms;
            proof {
                assert(self@ =~~= spec_step(t0, sample@).0);
            }
            return None;
        }
        if !matches!(sample.status, PlaybackStatus::Playing) {
            self.last_ms = sample.now_ms;
            proof {
                assert(self@ =~~= spec_step(t0, sample@).0);
            }
            return None;
        }
        let delta = sample.now_ms - self.last_ms;
        let threshold = self.threshold_ms;
        let mut commit: Option<(SongData, Date)> = None;
        match &mut self.session {
            Some(sess) => {
                sess.elapsed_ms = sess.elapsed_ms + delta;
                if sess.elapsed_ms >= threshold && !sess.committed {
                    sess.committed = true;
                    commit = Some((sess.data.clone(), sess.date));
                }
            },
            None => {
                proof {
                    assert(false);
                }
            },
        }
        self.last_ms = sample.now_ms;
        proof {
            assert(self@ =~~= spec_step(t0, sample@).0);
            assert(commit_model(commit) =~~= spec_step(t0, sample@).1);
        }
        commit
    }

    /// Feeds one sample and, if it completes a session, records the play in
    /// the store. Whatever the store's fate outside this model, the session
    /// is marked committed by the step itself and is never retried.
    pub fn observe(&mut self, store: &mut Store, sample: &Sample) -> (committed: bool)
        requires
            old(self)@.wf(),
            old(store).wf(),
            sample.now_ms >= old(self).last_ms,
            sample.date.wf(),
            old(store).total < u64::MAX,
            old(store).next_id < u64::MAX,
        ensures
            final(self)@.wf(),
            final(store).wf(),
            final(self)@ == spec_step(old(self)@, sample@).0,
            committed == (spec_step(old(self)@, sample@).1 is Some),
            match spec_step(old(self)@, sample@).1 {
                Some(c) => final(store)@ == spec_commit(old(store)@, c.key, c.date),
                None => final(store)@ == old(store)@,
            },
    {
        let ghost t0 = self@;
        match self.step(sample) {
            Some((data, date)) => {
                proof {
                    let c = spec_step(t0, sample@).1->Some_0;
                    assert(c.key == data@ && c.date == date);
                    assert(t0.session matches Some(sess) && sess.key == data@ && sess.date
                        == date);
                }
                store.commit(&data, date);
                true
            },
            None => false,
        }
    }
}

/// The tracker after a sequence of samples.
pub open spec fn run_steps(t: TrackerModel, samples: Seq<SampleModel>) -> TrackerModel
    decreases samples.len(),
{
    if samples.len() == 0 {
        t
    } else {
        spec_step(run_steps(t, samples.drop_last()), samples.last()).0
    }
}

/// How many commits a sequence of samples asks for.
pub open spec fn commit_count(t: TrackerModel, samples: Seq<SampleModel>) -> nat
    decreases samples.len(),
{
    if samples.len() == 0 {
        0
    } else {
        commit_count(t, samples.drop_last()) + if spec_step(
            run_steps(t, samples.drop_last()),
            samples.last(),
        ).1 is Some {
            1nat
        } else {
            0nat
        }
    }
}

/// A sequence of samples of one constant identity, playing throughout, with
/// nondecreasing timestamps and well-formed dates.
pub open spec fn uniform_run(key: SongKey, samples: Seq<SampleModel>) -> bool {
    &&& forall|i: int| 0 <= i < samples.len() ==> (#[trigger] samples[i]).key == key
    &&& forall|i: int| 0 <= i < samples.len() ==> (#[trigger] samples[i]).status is Playing
    &&& forall|i: int, j: int|
        0 <= i <= j < samples.len() ==> samples[i].now_ms <= samples[j].now_ms
    &&& forall|i: int| 0 <= i < samples.len() ==> (#[trigger] samples[i]).date.wf()
}

/// Commit-once: over any run of samples with one constant valid identity,
/// playing throughout, the session started by the first sample accrues
/// exactly the time since that sample, and exactly one commit is asked for —
/// none while the span stays under the threshold, one as soon as it reaches
/// it, and never a second. Applied to each prefix of a run, this places the
/// single commit at the first tick where the elapsed time reaches the
/// threshold.
pub proof fn lemma_commit_once(t: TrackerModel, key: SongKey, samples: Seq<SampleModel>)
    requires
        t.wf(),
        key.valid(),
        uniform_run(key, samples),
        samples.len() >= 1,
        samples[0].now_ms >= t.last_ms,
        match t.session {
            Some(sess) => sess.key != key,
            None => true,
        },
    ensures
        ({
            let tn = run_steps(t, samples);
            let span = samples.last().now_ms - samples[0].now_ms;
            &&& tn.wf()
            &&& tn.threshold == t.threshold
            &&& tn.last_ms == samples.last().now_ms
            &&& tn.session matches Some(sess) && sess.key == key && sess.date == samples[0].date
                && sess.elapsed == span && sess.committed == (samples.len() >= 2 && span
                >= t.threshold)
            &&& commit_count(t, samples) == if samples.len() >= 2 && span >= t.threshold {
                1nat
            } else {
                0nat
            }
        }),
    decreases samples.len(),
{
    if samples.len() == 1 {
        assert(run_steps(t, samples.drop_last()) == t);
        assert(samples.drop_last().len() == 0);
        assert(spec_step(t, samples[0]).1 is None);
        assert(commit_count(t, samples.drop_last()) == 0);
        assert(samples.last() == samples[0]);
        assert(commit_count(t, samples) == 0);
    } else {
        let pre = samples.drop_last();
        assert(forall|i: int| 0 <= i < pre.len() ==> pre[i] == samples[i]);
        assert(uniform_run(key, pre));
        lemma_commit_once(t, key, pre);
        let tp = run_steps(t, pre);
        let s = samples.last();
        assert(s.key == key && s.status is Playing);
        assert(s.now_ms >= tp.last_ms);
        let prespan = pre.last().now_ms - pre[0].now_ms;
        let span = samples.last().now_ms - samples[0].now_ms;
        let sess = tp.session->Some_0;
        assert(commit_count(t, samples) == commit_count(t, pre) + if spec_step(tp, s).1 is Some {
            1nat
        } else {
            0nat
        });
        if pre.len() >= 2 && prespan >= t.threshold {
            assert(sess.committed);
            assert(spec_step(tp, s).1 is None);
            assert(commit_count(t, pre) == 1);
            assert(span >= prespan);
            assert(commit_count(t, samples) == 1);
        } else {
            assert(!sess.committed);
            assert(commit_count(t, pre) == 0);
            if span >= t.threshold {
                assert(spec_step(tp, s).1 is Some);
                assert(commit_count(t, samples) == 1);
            } else {
                assert(spec_step(tp, s).1 is None);
                assert(commit_count(t, samples) == 0);
            }
        }
    }
}

/// The single commit of a uniform run lands exactly at the first tick whose
/// elapsed time reaches the threshold: every prefix ending before that tick
/// asks for no commit, and every prefix ending at or after it asks for
/// exactly one.
pub proof fn lemma_commit_at_first_crossing(
    t: TrackerModel,
    key: SongKey,
    samples: Seq<SampleModel>,
    k: int,
)
    requires
        t.wf(),
        key.valid(),
        uniform_run(key, samples),
        samples.len() >= 1,
        samples[0].now_ms >= t.last_ms,
        match t.session {
            Some(sess) => sess.key != key,
            None => true,
        },
        1 <= k <= samples.len(),
    ensures
        commit_count(t, samples.take(k)) == if k >= 2 && samples[k - 1].now_ms
            - samples[0].now_ms >= t.threshold {
            1nat
        } else {
            0nat
        },
{
    let pre = samples.take(k);
    assert(forall|i: int| 0 <= i < pre.len() ==> pre[i] == samples[i]);
    assert(uniform_run(key, pre));
    lemma_commit_once(t, key, pre);
}

/// No partial credit: a sample with a different valid identity never commits
/// the session it abandons, whatever that session's elapsed time; it starts a
/// fresh, uncommitted session dated at the sample.
pub proof fn lemma_no_partial_credit(t: TrackerModel, s: SampleModel)
    requires
        s.key.valid(),
        match t.session {
            Some(sess) => sess.key != s.key,
            None => true,
        },
    ensures
        spec_step(t, s).1 is None,
        spec_step(t, s).0.session == Some(
            SessionModel { key: s.key, elapsed: 0, committed: false, date: s.date },
        ),
{
}

/// A commit is only ever asked for by the session's own identity, only while
/// playing, and only when the accrued time has reached the threshold on an
/// uncommitted session.
pub proof fn lemma_commit_only_at_threshold(t: TrackerModel, s: SampleModel)
    ensures
        spec_step(t, s).1 matches Some(c) ==> {
            &&& t.session matches Some(sess) && c.key == sess.key && c.date == sess.date
                && !sess.committed
            &&& s.key == c.key
            &&& s.status is Playing
            &&& spec_step(t, s).0.session matches Some(after) && after.committed
                && after.elapsed >= t.threshold
        },
{
}

} // verus!
