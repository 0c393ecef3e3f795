//! The watch loop: poll a [`Runner`] at a fixed cadence, report each value
//! transition over a channel, and stop on one-shot completion, on a sampling
//! failure, or when the consumer drops its end of the channel.
//!
//! The loop's behaviour is modelled by [`watch_events`]: the stream of
//! messages a watch delivers for a given sequence of sampler outcomes when
//! the consumer keeps listening. [`Watcher::step`] performs one poll cycle
//! and is specified against that model through two ghost records: every
//! sampler outcome seen so far, and every message the channel accepted so
//! far. The caller owns the cadence: it runs `step` in a loop and pauses
//! for the configured interval between cycles.

use vstd::prelude::*;
use vstd::string::*;

use std::sync::mpsc::Sender;

use crate::change::Change;
use crate::context::Context;
use crate::runner;
use crate::runner::Runner;
use crate::text::str_eq;

verus! {

/// What the watch sends its consumer: a change, or the failure that ends it.
pub type Message = Result<Change, Error>;

/// The failure that ends a watch: its sampler could not produce a value.
#[derive(Debug, Clone, PartialEq, Eq)]
pub enum Error {
    /// The underlying sampling query failed.
    CommandExecutionError(runner::Error),
}

impl Error {
    /// The text of [`Error::message`].
    pub open spec fn spec_message(&self) -> Seq<char> {
        match self {
            Error::CommandExecutionError(inner) => "Error during command execution : "@
                + inner.spec_message(),
        }
    }

    /// The human-readable description of this failure.
    pub fn message(&self) -> (r: String)
        ensures
            r@ == self.spec_message(),
    {
        match self {
            Error::CommandExecutionError(inner) => String::from_str(
                "Error during command execution : ",
            ).concat(inner.message().as_str()),
        }
    }
}

/// One sampler outcome, as the model sees it: the sampled text or the failure.
pub type Outcome = Result<Seq<char>, runner::Error>;

/// One delivered message, as the model sees it.
pub type Event = Result<Seq<char>, Error>;

/// What one sampler outcome makes the watch emit, given the last observed
/// value: a change exactly when a successful sample differs from that value
/// (a first sample always differs, there being no prior value), the wrapped
/// failure when the sample failed, and nothing otherwise.
pub open spec fn step_emission(prev: Option<Seq<char>>, outcome: Outcome) -> Option<Event> {
    match outcome {
        Result::Ok(v) => if prev != Option::Some(v) {
            Option::Some(Result::Ok(v))
        } else {
            Option::None
        },
        Result::Err(e) => Option::Some(Result::Err(Error::CommandExecutionError(e))),
    }
}

/// The last observed value after one more outcome: a successful sample is
/// remembered, a failure leaves the memory as it was.
pub open spec fn step_value(prev: Option<Seq<char>>, outcome: Outcome) -> Option<Seq<char>> {
    match outcome {
        Result::Ok(v) => Option::Some(v),
        Result::Err(_) => prev,
    }
}

/// Whether the watch keeps polling after this outcome, provided the channel
/// accepted its message (if it emitted one): a failure always stops it, and
/// in one-shot mode so does a delivered change.
pub open spec fn step_continues(prev: Option<Seq<char>>, outcome: Outcome, one_shot: bool) -> bool {
    match outcome {
        Result::Ok(v) => prev == Option::Some(v) || !one_shot,
        Result::Err(_) => false,
    }
}

/// The whole stream of messages a watch delivers for a given sequence of
/// sampler outcomes, starting with last observed value `prev`, when the
/// consumer keeps its end of the channel open throughout. Outcomes past the
/// point where the watch stops contribute nothing.
pub open spec fn watch_events(outcomes: Seq<Outcome>, prev: Option<Seq<char>>, one_shot: bool) -> Seq<Event>
    decreases outcomes.len(),
{
    if outcomes.len() == 0 {
        seq![]
    } else {
        let out = outcomes[0];
        let emitted: Seq<Event> = match step_emission(prev, out) {
            Option::Some(m) => seq![m],
            Option::None => seq![],
        };
        if step_continues(prev, out, one_shot) {
            emitted + watch_events(outcomes.drop_first(), step_value(prev, out), one_shot)
        } else {
            emitted
        }
    }
}

/// The last observed value after a whole sequence of outcomes.
pub open spec fn value_after(outcomes: Seq<Outcome>, prev: Option<Seq<char>>) -> Option<Seq<char>>
    decreases outcomes.len(),
{
    if outcomes.len() == 0 {
        prev
    } else {
        value_after(outcomes.drop_first(), step_value(prev, outcomes[0]))
    }
}

/// Whether a watch that saw these outcomes is still polling afterwards.
pub open spec fn keeps_running(outcomes: Seq<Outcome>, prev: Option<Seq<char>>, one_shot: bool) -> bool
    decreases outcomes.len(),
{
    outcomes.len() == 0 || (step_continues(prev, outcomes[0], one_shot) && keeps_running(
        outcomes.drop_first(),
        step_value(prev, outcomes[0]),
        one_shot,
    ))
}

/// Whether every outcome in the sequence is a successful sample.
pub open spec fn all_ok(outcomes: Seq<Outcome>) -> bool {
    forall|i: int| 0 <= i < outcomes.len() ==> outcomes[i] is Ok
}

/// The outcome sequence of a sampler that returns exactly these values.
pub open spec fn ok_outcomes(values: Seq<Seq<char>>) -> Seq<Outcome> {
    values.map_values(|v: Seq<char>| Result::<Seq<char>, runner::Error>::Ok(v))
}

/// Law: the delivered stream is assembled cycle by cycle, in order. As long
/// as a watch is still running after the outcomes `s1`, the events of `s1`
/// followed by any further outcomes `s2` are exactly the events of `s1`
/// followed by the events of `s2` — no reordering and no coalescing across
/// the boundary.
pub proof fn lemma_watch_events_append(
    s1: Seq<Outcome>,
    s2: Seq<Outcome>,
    prev: Option<Seq<char>>,
    one_shot: bool,
)
    requires
        keeps_running(s1, prev, one_shot),
    ensures
        watch_events(s1 + s2, prev, one_shot) == watch_events(s1, prev, one_shot) + watch_events(
            s2,
            value_after(s1, prev),
            one_shot,
        ),
    decreases s1.len(),
{
    if s1.len() == 0 {
        assert(s1 + s2 =~= s2);
        assert(watch_events(s1, prev, one_shot) + watch_events(s2, prev, one_shot)
            =~= watch_events(s2, prev, one_shot));
    } else {
        let out = s1[0];
        let next = step_value(prev, out);
        assert((s1 + s2)[0] == out);
        assert((s1 + s2).drop_first() =~= s1.drop_first() + s2);
        lemma_watch_events_append(s1.drop_first(), s2, next, one_shot);
        let emitted: Seq<Event> = match step_emission(prev, out) {
            Option::Some(m) => seq![m],
            Option::None => seq![],
        };
        assert(emitted + (watch_events(s1.drop_first(), next, one_shot) + watch_events(
            s2,
            value_after(s1.drop_first(), next),
            one_shot,
        )) =~= (emitted + watch_events(s1.drop_first(), next, one_shot)) + watch_events(
            s2,
            value_after(s1.drop_first(), next),
            one_shot,
        ));
    }
}

/// Law: no transition leaves the stopped state. Once a watch has stopped
/// within the outcomes `s1`, any further outcomes `s2` contribute no event.
pub proof fn lemma_watch_events_stopped(
    s1: Seq<Outcome>,
    s2: Seq<Outcome>,
    prev: Option<Seq<char>>,
    one_shot: bool,
)
    requires
        !keeps_running(s1, prev, one_shot),
    ensures
        watch_events(s1 + s2, prev, one_shot) == watch_events(s1, prev, one_shot),
    decreases s1.len(),
{
    let out = s1[0];
    let next = step_value(prev, out);
    assert((s1 + s2)[0] == out);
    assert((s1 + s2).drop_first() =~= s1.drop_first() + s2);
    if step_continues(prev, out, one_shot) {
        lemma_watch_events_stopped(s1.drop_first(), s2, next, one_shot);
    }
}

/// A sequence of successful outcomes never stops a continuous watch.
proof fn lemma_ok_keeps_running(outcomes: Seq<Outcome>, prev: Option<Seq<char>>)
    requires
        all_ok(outcomes),
    ensures
        keeps_running(outcomes, prev, false),
    decreases outcomes.len(),
{
    if outcomes.len() > 0 {
        assert(outcomes[0] is Ok);
        assert(all_ok(outcomes.drop_first())) by {
            assert(forall|i: int|
                0 <= i < outcomes.drop_first().len() ==> outcomes.drop_first()[i] == outcomes[i
                    + 1]);
        }
        lemma_ok_keeps_running(outcomes.drop_first(), step_value(prev, outcomes[0]));
    }
}

/// After a sequence of successful outcomes the last observed value is the
/// last sampled one.
proof fn lemma_value_after_ok(outcomes: Seq<Outcome>, prev: Option<Seq<char>>)
    requires
        all_ok(outcomes),
    ensures
        value_after(outcomes, prev) == if outcomes.len() == 0 {
            prev
        } else {
            Option::Some(outcomes.last()->Ok_0)
        },
    decreases outcomes.len(),
{
    if outcomes.len() > 0 {
        assert(outcomes[0] is Ok);
        assert(all_ok(outcomes.drop_first())) by {
            assert(forall|i: int|
                0 <= i < outcomes.drop_first().len() ==> outcomes.drop_first()[i] == outcomes[i
                    + 1]);
        }
        lemma_value_after_ok(outcomes.drop_first(), step_value(prev, outcomes[0]));
        if outcomes.len() > 1 {
            assert(outcomes.drop_first().last() == outcomes.last());
        }
    }
}

/// Law: with every sample succeeding and the watch continuous, each sample
/// extends the delivered stream by exactly one change — carrying that
/// sample's value — when it differs from its predecessor, and a first sample
/// always does; an unchanged sample adds nothing.
pub proof fn lemma_emits_exactly_on_change(values: Seq<Seq<char>>, n: int)
    requires
        0 <= n < values.len(),
    ensures
        ({
            let before = watch_events(ok_outcomes(values.take(n)), Option::None, false);
            let after = watch_events(ok_outcomes(values.take(n + 1)), Option::None, false);
            after == if n == 0 || values[n] != values[n - 1] {
                before.push(Result::<Seq<char>, Error>::Ok(values[n]))
            } else {
                before
            }
        }),
{
    let s1 = ok_outcomes(values.take(n));
    let out: Outcome = Result::Ok(values[n]);
    assert(all_ok(s1));
    assert(ok_outcomes(values.take(n + 1)) =~= s1 + seq![out]);
    lemma_ok_keeps_running(s1, Option::None);
    lemma_watch_events_append(s1, seq![out], Option::None, false);
    lemma_value_after_ok(s1, Option::None);
    let pv = value_after(s1, Option::None);
    if n > 0 {
        assert(s1.last() == Result::<Seq<char>, runner::Error>::Ok(values[n - 1]));
        assert(pv == Option::Some(values[n - 1]));
    }
    lemma_watch_events_singleton(out, pv, false);
    let before = watch_events(s1, Option::None, false);
    match step_emission(pv, out) {
        Option::Some(m) => {
            assert(before + seq![m] =~= before.push(m));
        },
        Option::None => {
            assert(before + Seq::<Event>::empty() =~= before);
        },
    }
}

/// Law: in one-shot mode the watch delivers exactly one message and stops —
/// the first sample's value when it succeeds, the wrapped failure when it
/// fails — whatever samples would follow.
pub proof fn lemma_one_shot_emits_once(outcomes: Seq<Outcome>)
    requires
        outcomes.len() > 0,
    ensures
        outcomes[0] matches Result::Ok(v) ==> watch_events(outcomes, Option::None, true) == seq![
            Result::<Seq<char>, Error>::Ok(v),
        ],
        outcomes[0] matches Result::Err(e) ==> watch_events(outcomes, Option::None, true) == seq![
            Result::<Seq<char>, Error>::Err(Error::CommandExecutionError(e)),
        ],
{
    let out = outcomes[0];
    assert(!step_continues(Option::None, out, true));
}

/// A sequence whose last outcome is a failure stops the watch.
proof fn lemma_err_stops(outcomes: Seq<Outcome>, prev: Option<Seq<char>>, one_shot: bool)
    requires
        outcomes.len() > 0,
        outcomes.last() is Err,
    ensures
        !keeps_running(outcomes, prev, one_shot),
    decreases outcomes.len(),
{
    if outcomes.len() > 1 {
        assert(outcomes.drop_first().last() == outcomes.last());
        lemma_err_stops(outcomes.drop_first(), step_value(prev, outcomes[0]), one_shot);
    }
}

/// Law: a failure short-circuits the watch. After any run of successful
/// samples, a failing sample makes the watch deliver exactly the changes
/// among those successes followed by exactly the one wrapped failure, and
/// stop: samples that would follow contribute nothing.
pub proof fn lemma_failure_short_circuits(
    values: Seq<Seq<char>>,
    e: runner::Error,
    rest: Seq<Outcome>,
)
    ensures
        ({
            let run = ok_outcomes(values).push(Result::<Seq<char>, runner::Error>::Err(e));
            watch_events(run + rest, Option::None, false) == watch_events(
                ok_outcomes(values),
                Option::None,
                false,
            ).push(Result::<Seq<char>, Error>::Err(Error::CommandExecutionError(e)))
        }),
{
    let s1 = ok_outcomes(values);
    let out: Outcome = Result::Err(e);
    let run = s1.push(out);
    assert(all_ok(s1));
    assert(run =~= s1 + seq![out]);
    lemma_ok_keeps_running(s1, Option::None);
    lemma_watch_events_append(s1, seq![out], Option::None, false);
    let pv = value_after(s1, Option::None);
    let m: Event = Result::Err(Error::CommandExecutionError(e));
    lemma_watch_events_singleton(out, pv, false);
    let before = watch_events(s1, Option::None, false);
    assert(before + seq![m] =~= before.push(m));
    assert(run.last() is Err);
    lemma_err_stops(run, Option::None, false);
    lemma_watch_events_stopped(run, rest, Option::None, false);
}

/// The last observed value after one more outcome at the end of a sequence.
proof fn lemma_value_after_snoc(outcomes: Seq<Outcome>, out: Outcome, prev: Option<Seq<char>>)
    ensures
        value_after(outcomes.push(out), prev) == step_value(value_after(outcomes, prev), out),
    decreases outcomes.len(),
{
    if outcomes.len() == 0 {
        assert(outcomes.push(out)[0] == out);
        assert(outcomes.push(out).drop_first() =~= Seq::<Outcome>::empty());
        assert(value_after(Seq::<Outcome>::empty(), step_value(prev, out)) == step_value(
            prev,
            out,
        ));
        assert(value_after(outcomes, prev) == prev);
    } else {
        assert(outcomes.push(out)[0] == outcomes[0]);
        assert(outcomes.push(out).drop_first() =~= outcomes.drop_first().push(out));
        lemma_value_after_snoc(outcomes.drop_first(), out, step_value(prev, outcomes[0]));
    }
}

/// Whether the watch still runs after one more outcome at the end of a
/// sequence it was running through.
proof fn lemma_keeps_running_snoc(
    outcomes: Seq<Outcome>,
    out: Outcome,
    prev: Option<Seq<char>>,
    one_shot: bool,
)
    requires
        keeps_running(outcomes, prev, one_shot),
    ensures
        keeps_running(outcomes.push(out), prev, one_shot) == step_continues(
            value_after(outcomes, prev),
            out,
            one_shot,
        ),
    decreases outcomes.len(),
{
    if outcomes.len() == 0 {
        assert(outcomes.push(out)[0] == out);
        assert(outcomes.push(out).drop_first() =~= Seq::<Outcome>::empty());
        assert(keeps_running(Seq::<Outcome>::empty(), step_value(prev, out), one_shot));
        assert(value_after(outcomes, prev) == prev);
    } else {
        assert(outcomes.push(out)[0] == outcomes[0]);
        assert(outcomes.push(out).drop_first() =~= outcomes.drop_first().push(out));
        lemma_keeps_running_snoc(
            outcomes.drop_first(),
            out,
            step_value(prev, outcomes[0]),
            one_shot,
        );
    }
}

/// The stream of a single outcome is exactly its emission.
proof fn lemma_watch_events_singleton(out: Outcome, prev: Option<Seq<char>>, one_shot: bool)
    ensures
        watch_events(seq![out], prev, one_shot) == (match step_emission(prev, out) {
            Option::Some(m) => seq![m],
            Option::None => Seq::<Event>::empty(),
        }),
{
    let tail: Seq<Outcome> = seq![out];
    assert(tail.len() == 1);
    assert(tail[0] == out);
    assert(tail.drop_first() =~= Seq::<Outcome>::empty());
    assert(watch_events(Seq::<Outcome>::empty(), step_value(prev, out), one_shot)
        == Seq::<Event>::empty());
    match step_emission(prev, out) {
        Option::Some(m) => {
            if step_continues(prev, out, one_shot) {
                assert(seq![m] + Seq::<Event>::empty() =~= seq![m]);
            }
        },
        Option::None => {
            assert(Seq::<Event>::empty() + Seq::<Event>::empty() =~= Seq::<Event>::empty());
        },
    }
}

/// Law: each poll cycle of a still-running watch extends the delivered
/// stream by exactly that cycle's emission — the very extension
/// [`Watcher::step`] promises of its ghost records — and the watch runs on
/// afterwards exactly when that cycle does not stop it. This is the
/// induction step tying the cycle-by-cycle contract of `step` to the whole
/// stream [`watch_events`].
pub proof fn lemma_one_more_cycle(
    outcomes: Seq<Outcome>,
    out: Outcome,
    prev: Option<Seq<char>>,
    one_shot: bool,
)
    requires
        keeps_running(outcomes, prev, one_shot),
    ensures
        value_after(outcomes.push(out), prev) == step_value(value_after(outcomes, prev), out),
        watch_events(outcomes.push(out), prev, one_shot) == watch_events(outcomes, prev, one_shot)
            + (match step_emission(value_after(outcomes, prev), out) {
            Option::Some(m) => seq![m],
            Option::None => Seq::<Event>::empty(),
        }),
        keeps_running(outcomes.push(out), prev, one_shot) == step_continues(
            value_after(outcomes, prev),
            out,
            one_shot,
        ),
{
    lemma_value_after_snoc(outcomes, out, prev);
    lemma_keeps_running_snoc(outcomes, out, prev, one_shot);
    assert(outcomes.push(out) =~= outcomes + seq![out]);
    lemma_watch_events_append(outcomes, seq![out], prev, one_shot);
    lemma_watch_events_singleton(out, value_after(outcomes, prev), one_shot);
}

/// Law: at most one failure message is ever delivered per watch, and it is
/// always the last: wherever a failure event stands in the stream, the
/// stream ends there.
pub proof fn lemma_error_is_terminal(
    outcomes: Seq<Outcome>,
    prev: Option<Seq<char>>,
    one_shot: bool,
    i: int,
)
    requires
        0 <= i < watch_events(outcomes, prev, one_shot).len(),
        watch_events(outcomes, prev, one_shot)[i] is Err,
    ensures
        i == watch_events(outcomes, prev, one_shot).len() - 1,
    decreases outcomes.len(),
{
    let events = watch_events(outcomes, prev, one_shot);
    assert(outcomes.len() > 0);
    let out = outcomes[0];
    let emitted: Seq<Event> = match step_emission(prev, out) {
        Option::Some(m) => seq![m],
        Option::None => seq![],
    };
    match out {
        Result::Ok(v) => {
            assert(forall|j: int| 0 <= j < emitted.len() ==> emitted[j] is Ok);
            if step_continues(prev, out, one_shot) {
                let rest = watch_events(outcomes.drop_first(), step_value(prev, out), one_shot);
                assert(events == emitted + rest);
                assert(i >= emitted.len());
                assert(events[i] == rest[i - emitted.len()]);
                lemma_error_is_terminal(
                    outcomes.drop_first(),
                    step_value(prev, out),
                    one_shot,
                    i - emitted.len(),
                );
            } else {
                assert(events == emitted);
            }
        },
        Result::Err(_) => {
            assert(events.len() == 1);
        },
    }
}

/// The std channel sender that carries messages to the consumer.
#[verifier::external_type_specification]
#[verifier::external_body]
#[verifier::reject_recursive_types(T)]
pub struct ExSender<T>(Sender<T>);

/// Relies on std's `mpsc::Sender::send`: it returns `Ok` exactly when the
/// message was accepted into the channel, and `Err` exactly when the
/// receiving end has been dropped, in which case the message is lost. Which
/// of the two happens depends on the consumer alone, so nothing is promised
/// of the result.
#[verifier::external_body]
fn send_message(sender: &Sender<Message>, message: Message) -> (accepted: bool) {
    sender.send(message).is_ok()
}

/// For a given runner, samples it at a regular cadence and sends a message
/// through the channel whenever the watched metric changes, until the watch
/// stops.
pub struct Watcher<T: Runner> {
    /// Which process and metric to watch, at which interval, and whether to
    /// stop after the first change.
    context: Context,
    /// Produces one sample per poll cycle.
    command: T,
    /// Carries changes and the final failure, if any, to the consumer.
    sender: Sender<Message>,
    /// The previously observed value, if any.
    value: Option<String>,
    /// Every sampler outcome seen so far, in order.
    history: Ghost<Seq<Outcome>>,
    /// Every message the channel accepted so far, in order.
    accepted: Ghost<Seq<Event>>,
}

impl<T: Runner> Watcher<T> {
    /// The configuration this watch runs under.
    pub closed spec fn spec_context(self) -> Context {
        self.context
    }

    /// The runner this watch polls.
    pub closed spec fn spec_command(self) -> T {
        self.command
    }

    /// The sending end of the watch's channel.
    pub closed spec fn spec_sender(self) -> Sender<Message> {
        self.sender
    }

    /// The last observed value, if any.
    pub closed spec fn last_value(self) -> Option<Seq<char>> {
        self.value.deep_view()
    }

    /// Every sampler outcome this watch has seen, in order.
    pub closed spec fn outcomes(self) -> Seq<Outcome> {
        self.history@
    }

    /// Every message the channel has accepted from this watch, in order.
    pub closed spec fn delivered(self) -> Seq<Event> {
        self.accepted@
    }

    /// A fresh watch: configured, with no prior observation and nothing sent.
    pub fn new(context: Context, sender: Sender<Message>, command: T) -> (w: Self)
        ensures
            w.spec_context() == context,
            w.spec_command() == command,
            w.spec_sender() == sender,
            w.last_value() is None,
            w.outcomes() == Seq::<Outcome>::empty(),
            w.delivered() == Seq::<Event>::empty(),
    {
        Self {
            context,
            command,
            sender,
            value: None,
            history: Ghost(Seq::empty()),
            accepted: Ghost(Seq::empty()),
        }
    }

    /// Sample once and detect a transition: record the outcome, remember a
    /// successful sample, and hand back the change to report (if any) or the
    /// failure that must end the watch. Sends nothing.
    fn lookup(&mut self) -> (r: Result<Option<Change>, Error>)
        ensures
            final(self).spec_context() == old(self).spec_context(),
            final(self).spec_command() == old(self).spec_command(),
            final(self).spec_sender() == old(self).spec_sender(),
            final(self).delivered() == old(self).delivered(),
            final(self).outcomes().len() == old(self).outcomes().len() + 1,
            final(self).outcomes().drop_last() == old(self).outcomes(),
            ({
                let out = final(self).outcomes().last();
                let prev = old(self).last_value();
                &&& final(self).last_value() == step_value(prev, out)
                &&& match r {
                    Result::Ok(Option::Some(change)) => {
                        &&& out == Result::<Seq<char>, runner::Error>::Ok(change.0@)
                        &&& prev != Option::Some(change.0@)
                        &&& final(self).last_value() == Option::Some(change.0@)
                        &&& step_emission(prev, out) == Option::Some(
                            Result::<Seq<char>, Error>::Ok(change.0@),
                        )
                    },
                    Result::Ok(Option::None) => {
                        &&& out is Ok
                        &&& prev == Option::Some(out->Ok_0)
                        &&& final(self).last_value() == prev
                        &&& step_emission(prev, out) is None
                    },
                    Result::Err(e) => {
                        &&& out is Err
                        &&& e == Error::CommandExecutionError(out->Err_0)
                        &&& final(self).last_value() == prev
                        &&& step_emission(prev, out) == Option::Some(
                            Result::<Seq<char>, Error>::Err(e),
                        )
                    },
                }
            }),
    {
        let res = self.command.execute(self.context.process_name.as_str(), &self.context.metric);
        match res {
            Ok(v) => {
                let ghost out: Outcome = Result::Ok(v@);
                self.history = Ghost(self.history@.push(out));
                proof {
                    assert(self.history@.drop_last() =~= old(self).history@);
                }
                let changed = match &self.value {
                    Option::None => true,
                    Option::Some(prev) => !str_eq(prev.as_str(), v.as_str()),
                };
                if changed {
                    self.value = Some(v.clone());
                    Ok(Some(Change(v)))
                } else {
                    Ok(None)
                }
            },
            Err(e) => {
                let ghost out: Outcome = Result::Err(e);
                self.history = Ghost(self.history@.push(out));
                proof {
                    assert(self.history@.drop_last() =~= old(self).history@);
                }
                Err(Error::CommandExecutionError(e))
            },
        }
    }

    /// One poll cycle. Samples once; on a change, offers it to the channel;
    /// on a failure, offers the wrapped failure. Returns whether the watch
    /// is still running, which is false after a failure, after a change in
    /// one-shot mode, and whenever the channel refused a message because the
    /// consumer is gone — that last case is a silent shutdown, not an error.
    ///
    /// The two ghost records say exactly what happened: the outcome sequence
    /// grows by the new sample, and the delivered sequence grows by the
    /// cycle's emission exactly when the channel accepted it.
    pub fn step(&mut self) -> (more: bool)
        ensures
            final(self).spec_context() == old(self).spec_context(),
            final(self).spec_command() == old(self).spec_command(),
            final(self).spec_sender() == old(self).spec_sender(),
            final(self).outcomes().len() == old(self).outcomes().len() + 1,
            final(self).outcomes().drop_last() == old(self).outcomes(),
            ({
                let out = final(self).outcomes().last();
                let prev = old(self).last_value();
                let one_shot = old(self).spec_context().one_iteration;
                &&& final(self).last_value() == step_value(prev, out)
                &&& match step_emission(prev, out) {
                    Option::Some(m) => (final(self).delivered() == old(self).delivered().push(m)
                        && more == step_continues(prev, out, one_shot)) || (final(self).delivered()
                        == old(self).delivered() && more == false),
                    Option::None => final(self).delivered() == old(self).delivered() && more
                        == step_continues(prev, out, one_shot),
                }
            }),
    {
        match self.lookup() {
            Ok(Some(change)) => {
                let ghost m: Event = Result::Ok(change.0@);
                let is_accepted = send_message(&self.sender, Ok(change));
                if is_accepted {
                    self.accepted = Ghost(self.accepted@.push(m));
                    !self.context.one_iteration
                } else {
                    false
                }
            },
            Ok(None) => true,
            Err(error) => {
                let ghost m: Event = Result::Err(error);
                let is_accepted = send_message(&self.sender, Err(error));
                if is_accepted {
                    self.accepted = Ghost(self.accepted@.push(m));
                }
                false
            },
        }
    }
}

} // verus!
