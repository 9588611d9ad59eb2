//! Usage reporting.
//!
//! The beacon keeps a small in-memory aggregate of tool calls and from time to
//! time sends it to a tracker canister. The functions here decide what to send
//! and what to keep; the caller runs the timer and makes the call to the
//! tracker. Between [`begin_beacon`] and [`finish_beacon`] the context is free:
//! calls that are tracked while a report is under way count for the next one.

use crate::clock::{law_timestamp_is_the_reading, timestamp, timestamp_from_ns};
use crate::numbers::Int;
use crate::principal::Principal;
use crate::usage::{
    count_in, counts_positive, lemma_together_with_nothing, lists_usage, only_calls,
    saturating_sum, tools_of, tools_together, usage_together, with_call, CallerActivity,
    ToolCounts, UsageCounts, UsageData,
};
use crate::wire::{
    decode_text_result, err_message, law_read_gives_the_result_that_was_written,
    lemma_text_result_decoded, never_text_result, ok_message, text_result_decoded, text_result_in,
};
use ic_cdk_timers::TimerId;
use vstd::prelude::*;
use vstd::string::StringExecFns;

verus! {

/// Declares `ic_cdk_timers::TimerId`. Timer ids are carried from the caller, who
/// gets them when a timer starts, back to the caller, who clears timers by
/// them; nothing is claimed of what they hold.
#[verifier::external_type_specification]
#[verifier::external_body]
pub struct ExTimerId(TimerId);

/// The default reporting period used when [`init`] receives `None`.
pub const DEFAULT_REPORTING_INTERVAL_SECONDS: u64 = 60 * 60;

/// Usage payload accepted by the tracker canister.
#[derive(Clone, Debug, PartialEq, Eq)]
pub struct UsageStats {
    /// Start of the reporting window, in IC nanoseconds.
    pub start_timestamp_ns: Int,
    /// End of the reporting window, in IC nanoseconds.
    pub end_timestamp_ns: Int,
    /// Aggregated caller/tool activity for the window.
    pub activity: Vec<CallerActivity>,
}

struct BeaconState {
    usage_data: UsageData,
    last_send_timestamp_ns: i64,
}

/// Mutable state and configuration for a usage beacon.
pub struct BeaconContext {
    state: BeaconState,
    timer_id: Option<TimerId>,
    tracker_canister_id: Principal,
    reporting_interval_seconds: u64,
}

/// What a [`BeaconContext`] stands for.
#[verifier::ext_equal]
pub struct BeaconModel {
    /// The calls since the last report that was taken.
    pub usage: UsageCounts,
    /// The start of the current reporting window.
    pub last_send: int,
    /// The tracker canister.
    pub tracker: Seq<u8>,
    /// Seconds between reports.
    pub interval: u64,
    /// The timer that is running.
    pub timer: Option<TimerId>,
}

/// The larger of `a` and `b`.
pub open spec fn later(a: int, b: int) -> int {
    if a < b {
        b
    } else {
        a
    }
}

impl BeaconModel {
    /// A new beacon: nothing counted, no timer; the interval is `interval`, one
    /// hour if there is none, one second if it is zero.
    pub open spec fn new(tracker: Seq<u8>, interval: Option<u64>) -> BeaconModel {
        BeaconModel {
            usage: UsageCounts::empty(),
            last_send: 0,
            tracker,
            interval: match interval {
                Some(seconds) => if seconds == 0 {
                    1
                } else {
                    seconds
                },
                None => DEFAULT_REPORTING_INTERVAL_SECONDS,
            },
            timer: None,
        }
    }

    /// After one call of `tool` by `caller`.
    pub open spec fn after_call(self, caller: Seq<u8>, tool: Seq<char>) -> BeaconModel {
        BeaconModel { usage: with_call(self.usage, caller, tool), ..self }
    }

    /// After the calls in `calls`, one after the other.
    pub open spec fn after_calls(self, calls: Seq<(Seq<u8>, Seq<char>)>) -> BeaconModel
        decreases calls.len(),
    {
        if calls.len() == 0 {
            self
        } else {
            self.after_calls(calls.drop_last()).after_call(calls.last().0, calls.last().1)
        }
    }

    /// After the usage was taken for a report.
    pub open spec fn after_take(self) -> BeaconModel {
        BeaconModel { usage: UsageCounts::empty(), ..self }
    }

    /// After the report of the window that ends at `end` was delivered.
    pub open spec fn after_delivery(self, end: int) -> BeaconModel {
        BeaconModel { last_send: later(self.last_send, end), ..self }
    }

    /// After the report of `usage` was not delivered.
    pub open spec fn after_failure(self, usage: UsageCounts) -> BeaconModel {
        BeaconModel { usage: usage_together(self.usage, usage), ..self }
    }

    /// After the timer was asked to start at `now`.
    pub open spec fn after_start(self, now: int) -> BeaconModel {
        BeaconModel { last_send: later(self.last_send, now), timer: None, ..self }
    }
}

impl View for BeaconContext {
    type V = BeaconModel;

    closed spec fn view(&self) -> BeaconModel {
        BeaconModel {
            usage: self.state.usage_data@,
            last_send: self.state.last_send_timestamp_ns as int,
            tracker: self.tracker_canister_id@,
            interval: self.reporting_interval_seconds,
            timer: self.timer_id,
        }
    }
}

impl BeaconContext {
    /// The usage is made of calls, and the interval is at least one second.
    pub closed spec fn wf(self) -> bool {
        &&& self.state.usage_data.wf()
        &&& self.reporting_interval_seconds >= 1
    }

    /// What `wf` says of the model.
    pub proof fn lemma_wf(self)
        requires
            self.wf(),
        ensures
            only_calls(self@.usage),
            self@.interval >= 1,
    {
        self.state.usage_data.lemma_wf();
    }

    /// The number of calls of `tool_id` by `caller` since the last report that
    /// was taken, if there were any.
    pub fn call_count(&self, caller: Principal, tool_id: &str) -> (count: Option<u64>)
        requires
            self.wf(),
        ensures
            match count {
                Some(n) => {
                    &&& self@.usage.contains_key(caller@)
                    &&& self@.usage[caller@].contains_key(tool_id@)
                    &&& n == self@.usage[caller@][tool_id@]
                },
                None => !self@.usage.contains_key(caller@) || !self@.usage[caller@].contains_key(
                    tool_id@,
                ),
            },
    {
        self.state.usage_data.count(&caller, &tool_id.to_owned())
    }

    /// Whether no call has been tracked since the last report that was taken.
    pub fn has_no_usage(&self) -> (empty: bool)
        ensures
            empty == (self@.usage == UsageCounts::empty()),
    {
        self.state.usage_data.is_empty()
    }

    /// The start of the current reporting window.
    pub fn last_send_timestamp_ns(&self) -> (last_send: i64)
        ensures
            last_send == self@.last_send,
    {
        self.state.last_send_timestamp_ns
    }

    /// Seconds between reports.
    pub fn reporting_interval_seconds(&self) -> (seconds: u64)
        ensures
            seconds == self@.interval,
    {
        self.reporting_interval_seconds
    }
}

/// Creates an empty beacon context.
///
/// `reporting_interval_seconds` defaults to one hour when omitted. A zero
/// interval is normalized to one second to avoid registering a continuously
/// firing global timer by accident.
pub fn init(tracker_canister_id: Principal, reporting_interval_seconds: Option<u64>) -> (context:
    BeaconContext)
    ensures
        context.wf(),
        context@ == BeaconModel::new(tracker_canister_id@, reporting_interval_seconds),
        context@.tracker == tracker_canister_id@,
        reporting_interval_seconds matches Some(seconds) ==> seconds >= 1 ==> context@.interval
            == seconds,
        reporting_interval_seconds == Some(0u64) ==> context@.interval == 1,
        reporting_interval_seconds is None ==> context@.interval == 3600,
{
    let requested: u64 = reporting_interval_seconds.unwrap_or(DEFAULT_REPORTING_INTERVAL_SECONDS);
    BeaconContext {
        state: BeaconState { usage_data: UsageData::new(), last_send_timestamp_ns: 0 },
        timer_id: None,
        tracker_canister_id,
        reporting_interval_seconds: if requested < 1 {
            1
        } else {
            requested
        },
    }
}

/// Adds one invocation to the current reporting window.
pub fn track_call(context: &mut BeaconContext, caller: Principal, tool_id: String)
    requires
        old(context).wf(),
    ensures
        final(context).wf(),
        final(context)@ == old(context)@.after_call(caller@, tool_id@),
{
    context.state.usage_data.record(caller, tool_id);
}

/// What the caller has to do to start the timer: clear the timer `clear`, if
/// there is one, then start one that fires every `interval_seconds`, and hand
/// its id to [`timer_started`].
#[derive(Debug)]
pub struct TimerPlan {
    /// The timer that was running.
    pub clear: Option<TimerId>,
    /// Seconds between reports.
    pub interval_seconds: u64,
}

/// Starts or restarts the recurring usage-report timer, at `now_ns` on the
/// clock.
///
/// Restarting first cancels the previous timer, which makes this safe to call
/// after canister initialization code is re-run.
pub fn start_timer(context: &mut BeaconContext, now_ns: u64) -> (plan: TimerPlan)
    requires
        old(context).wf(),
    ensures
        final(context).wf(),
        final(context)@ == old(context)@.after_start(timestamp(now_ns)),
        final(context)@.last_send >= old(context)@.last_send,
        now_ns <= i64::MAX ==> final(context)@.last_send >= now_ns,
        plan.clear == old(context)@.timer,
        plan.interval_seconds == old(context)@.interval,
{
    let clear: Option<TimerId> = context.timer_id.take();
    let now: i64 = timestamp_from_ns(now_ns);
    if context.state.last_send_timestamp_ns < now {
        context.state.last_send_timestamp_ns = now;
    }
    TimerPlan { clear, interval_seconds: context.reporting_interval_seconds }
}

/// Notes that the timer `timer_id` was started.
pub fn timer_started(context: &mut BeaconContext, timer_id: TimerId)
    requires
        old(context).wf(),
    ensures
        final(context).wf(),
        final(context)@ == (BeaconModel { timer: Some(timer_id), ..old(context)@ }),
{
    context.timer_id = Some(timer_id);
}

/// Ends the use of the context; the caller clears the timer that comes back.
pub fn stop_timer(context: &mut BeaconContext) -> (clear: Option<TimerId>)
    requires
        old(context).wf(),
    ensures
        final(context).wf(),
        final(context)@ == (BeaconModel { timer: None, ..old(context)@ }),
        clear == old(context)@.timer,
{
    context.timer_id.take()
}

/// A report that was taken: the usage it reports, kept in case it is not
/// delivered, and the payload.
struct PendingReport {
    usage_data: UsageData,
    stats: UsageStats,
}

/// Takes the usage out of `state` for a report of the window that ends at
/// `end_timestamp_ns`, if there is any.
fn take_report(state: &mut BeaconState, end_timestamp_ns: i64) -> (report: Option<PendingReport>)
    requires
        old(state).usage_data.wf(),
    ensures
        final(state).usage_data.wf(),
        final(state).last_send_timestamp_ns == old(state).last_send_timestamp_ns,
        final(state).usage_data@ == UsageCounts::empty(),
        report is None <==> old(state).usage_data@ == UsageCounts::empty(),
        report matches Some(pending) ==> {
            &&& pending.usage_data.wf()
            &&& pending.usage_data@ == old(state).usage_data@
            &&& pending.stats.start_timestamp_ns@ == old(state).last_send_timestamp_ns
            &&& pending.stats.end_timestamp_ns@ == end_timestamp_ns
            &&& lists_usage(pending.stats.activity@, old(state).usage_data@)
        },
{
    if state.usage_data.is_empty() {
        return None;
    }
    let mut usage_data: UsageData = UsageData::new();
    std::mem::swap(&mut usage_data, &mut state.usage_data);
    let activity: Vec<CallerActivity> = usage_data.activity();
    Some(
        PendingReport {
            usage_data,
            stats: UsageStats {
                start_timestamp_ns: Int::from(state.last_send_timestamp_ns),
                end_timestamp_ns: Int::from(end_timestamp_ns),
                activity,
            },
        },
    )
}

/// Puts `usage_data`, which was taken for a report, back into `state`.
fn restore_usage(state: &mut BeaconState, usage_data: UsageData)
    requires
        old(state).usage_data.wf(),
        usage_data.wf(),
    ensures
        final(state).usage_data.wf(),
        final(state).last_send_timestamp_ns == old(state).last_send_timestamp_ns,
        final(state).usage_data@ == usage_together(old(state).usage_data@, usage_data@),
{
    state.usage_data.add_usage(usage_data);
}

/// The call that delivers a report: the method `method` of the canister
/// `tracker_canister_id`, with `stats` as its argument.
pub struct ReportCall {
    /// The tracker canister.
    pub tracker_canister_id: Principal,
    /// The method that takes reports.
    pub method: &'static str,
    /// The report.
    pub stats: UsageStats,
}

/// A report whose delivery is under way.
pub struct InFlightReport {
    usage_data: UsageData,
    end_timestamp_ns: i64,
}

impl InFlightReport {
    /// The usage is made of calls.
    pub closed spec fn wf(self) -> bool {
        self.usage_data.wf()
    }

    /// The usage that is reported.
    pub closed spec fn usage(self) -> UsageCounts {
        self.usage_data@
    }

    /// The end of the window that is reported.
    pub closed spec fn end(self) -> int {
        self.end_timestamp_ns as int
    }
}

/// `started` is the start of the delivery of a report of all that `context`
/// counts, for the window that ends at `end`.
pub open spec fn reports(
    started: (ReportCall, InFlightReport),
    context: BeaconModel,
    end: int,
) -> bool {
    &&& started.0.tracker_canister_id@ == context.tracker
    &&& started.0.method@ == "log_call"@
    &&& started.0.stats.start_timestamp_ns@ == context.last_send
    &&& started.0.stats.end_timestamp_ns@ == end
    &&& lists_usage(started.0.stats.activity@, context.usage)
    &&& started.1.wf()
    &&& started.1.usage() == context.usage
    &&& started.1.end() == end
}

/// Starts the delivery of a report of the window that ends at
/// `end_timestamp_ns`, if any call was tracked. The outcome of the call that
/// comes back goes to [`finish_report`].
pub fn begin_report(context: &mut BeaconContext, end_timestamp_ns: i64) -> (started: Option<
    (ReportCall, InFlightReport),
>)
    requires
        old(context).wf(),
    ensures
        final(context).wf(),
        final(context)@ == old(context)@.after_take(),
        started is None <==> old(context)@.usage == UsageCounts::empty(),
        started matches Some(pair) ==> reports(pair, old(context)@, end_timestamp_ns as int),
{
    match take_report(&mut context.state, end_timestamp_ns) {
        Some(report) => {
            let call = ReportCall {
                tracker_canister_id: context.tracker_canister_id,
                method: "log_call",
                stats: report.stats,
            };
            Some((call, InFlightReport { usage_data: report.usage_data, end_timestamp_ns }))
        },
        None => None,
    }
}

/// Ends the delivery of `report`. Where it failed, the usage is put back for
/// the next attempt.
pub fn finish_report(
    context: &mut BeaconContext,
    report: InFlightReport,
    outcome: Result<(), String>,
) -> (result: Result<(), String>)
    requires
        old(context).wf(),
        report.wf(),
    ensures
        final(context).wf(),
        result == outcome,
        outcome is Ok ==> final(context)@ == old(context)@.after_delivery(report.end()),
        outcome is Err ==> final(context)@ == old(context)@.after_failure(report.usage()),
{
    match outcome {
        Ok(delivered) => {
            if context.state.last_send_timestamp_ns < report.end_timestamp_ns {
                context.state.last_send_timestamp_ns = report.end_timestamp_ns;
            }
            Ok(delivered)
        },
        Err(error) => {
            restore_usage(&mut context.state, report.usage_data);
            Err(error)
        },
    }
}

/// Starts the delivery of a report of the window that ends now, at `now_ns` on
/// the clock, if any call was tracked. The reply to the call that comes back
/// goes to [`finish_beacon`].
pub fn begin_beacon(context: &mut BeaconContext, now_ns: u64) -> (started: Option<
    (ReportCall, InFlightReport),
>)
    requires
        old(context).wf(),
    ensures
        final(context).wf(),
        final(context)@ == old(context)@.after_take(),
        started is None <==> old(context)@.usage == UsageCounts::empty(),
        started matches Some(pair) ==> reports(pair, old(context)@, timestamp(now_ns)),
{
    begin_report(context, timestamp_from_ns(now_ns))
}

/// What comes before the decoder's text when the tracker's reply cannot be
/// decoded.
pub open spec fn undecodable_prefix() -> Seq<char> {
    "candid decode failed for type: core::result::Result<(), alloc::string::String>, candid error: "@
}

/// The outcome of a delivery whose reply was decoded to `decoded`; an outer
/// error is the decoder's text.
pub fn decoded_outcome(decoded: Result<Result<(), String>, String>) -> (outcome: Result<
    (),
    String,
>)
    ensures
        match decoded {
            Ok(result) => outcome == result,
            Err(text) => outcome is Err && outcome->Err_0@ == undecodable_prefix() + text@,
        },
{
    match decoded {
        Ok(result) => result,
        Err(text) => {
            let mut message: String =
                "candid decode failed for type: core::result::Result<(), alloc::string::String>, candid error: ".to_owned();
            message.append(text.as_str());
            Err(message)
        },
    }
}

/// Ends the delivery of `report` with the tracker's reply, or with the text of
/// the failure of the call. Where it failed, or the tracker refused, or its
/// reply could not be decoded, the usage is put back for the next attempt.
pub fn finish_beacon(
    context: &mut BeaconContext,
    report: InFlightReport,
    reply: Result<Vec<u8>, String>,
) -> (result: Result<(), String>)
    requires
        old(context).wf(),
        report.wf(),
    ensures
        final(context).wf(),
        result is Ok ==> final(context)@ == old(context)@.after_delivery(report.end()),
        result is Err ==> final(context)@ == old(context)@.after_failure(report.usage()),
        reply matches Err(text) ==> result == Err::<(), String>(text),
        reply matches Ok(message) ==> exists|decoded: Result<Result<(), String>, String>| #[trigger]
            text_result_decoded(message@, decoded) && match decoded {
                Ok(answer) => result == answer,
                Err(text) => result is Err && result->Err_0@ == undecodable_prefix() + text@,
            },
        reply matches Ok(message) ==> (never_text_result(message@) ==> result is Err
            && undecodable_prefix().is_prefix_of(result->Err_0@)),
        reply matches Ok(message) ==> (result is Ok ==> text_result_in(message@) is Ok),
        reply matches Ok(message) ==> (result is Err ==> undecodable_prefix().is_prefix_of(
            result->Err_0@,
        ) || text_result_in(message@) == Err::<(), Seq<char>>(result->Err_0@)),
        reply matches Ok(message) ==> (message@ == ok_message() ==> result is Ok
            || undecodable_prefix().is_prefix_of(result->Err_0@)),
        reply matches Ok(message) ==> forall|text: Seq<char>|
            message@ == #[trigger] err_message(text) ==> result is Err && (result->Err_0@ == text
                || undecodable_prefix().is_prefix_of(result->Err_0@)),
{
    let outcome: Result<(), String> = match reply {
        Ok(message) => {
            let received: &[u8] = message.as_slice();
            let decoded: Result<Result<(), String>, String> = decode_text_result(received);
            proof {
                lemma_text_result_decoded(received, decoded);
            }
            decoded_outcome(decoded)
        },
        Err(text) => Err(text),
    };
    finish_report(context, report, outcome)
}

/// How often `call` stands in `calls`.
pub open spec fn occurrences(
    calls: Seq<(Seq<u8>, Seq<char>)>,
    call: (Seq<u8>, Seq<char>),
) -> nat
    decreases calls.len(),
{
    if calls.len() == 0 {
        0
    } else {
        occurrences(calls.drop_last(), call) + if calls.last() == call {
            1nat
        } else {
            0nat
        }
    }
}

/// The count of `caller` for `tool`, zero if there is none.
pub open spec fn call_count(usage: UsageCounts, caller: Seq<u8>, tool: Seq<char>) -> u64 {
    count_in(tools_of(usage, caller), tool)
}

/// A call counts for its caller and its tool, and for no other pair.
pub proof fn law_call_counts_for_its_caller_and_tool(
    model: BeaconModel,
    caller: Seq<u8>,
    tool: Seq<char>,
    other_caller: Seq<u8>,
    other_tool: Seq<char>,
)
    requires
        (other_caller, other_tool) != (caller, tool),
    ensures
        call_count(model.after_call(caller, tool).usage, caller, tool) == saturating_sum(
            call_count(model.usage, caller, tool),
            1,
        ),
        call_count(model.after_call(caller, tool).usage, other_caller, other_tool) == call_count(
            model.usage,
            other_caller,
            other_tool,
        ),
{
}

/// The count of a caller for a tool is the number of the calls, as far as a
/// `u64` can tell.
pub proof fn law_counts_are_numbers_of_calls(
    model: BeaconModel,
    calls: Seq<(Seq<u8>, Seq<char>)>,
    caller: Seq<u8>,
    tool: Seq<char>,
)
    ensures
        ({
            let total = call_count(model.usage, caller, tool) + occurrences(calls, (caller, tool));
            call_count(model.after_calls(calls).usage, caller, tool) == if total > u64::MAX {
                u64::MAX as int
            } else {
                total
            }
        }),
    decreases calls.len(),
{
    if calls.len() > 0 {
        let before = model.after_calls(calls.drop_last());
        law_counts_are_numbers_of_calls(model, calls.drop_last(), caller, tool);
        if calls.last() != (caller, tool) {
            law_call_counts_for_its_caller_and_tool(
                before,
                calls.last().0,
                calls.last().1,
                caller,
                tool,
            );
        }
    }
}

/// A report that could not be delivered loses nothing: after the failure the
/// beacon is as if the report had never been taken, with the calls that came
/// meanwhile counted on top.
pub proof fn law_failed_report_loses_nothing(
    model: BeaconModel,
    calls: Seq<(Seq<u8>, Seq<char>)>,
)
    ensures
        model.after_take().after_calls(calls).after_failure(model.usage) == model.after_calls(
            calls,
        ),
    decreases calls.len(),
{
    if calls.len() == 0 {
        lemma_together_with_nothing(model.usage);
        assert(model.after_take().after_failure(model.usage) =~= model);
    } else {
        let front = calls.drop_last();
        let last = calls.last();
        law_failed_report_loses_nothing(model, front);
        let meanwhile = model.after_take().after_calls(front);
        lemma_call_then_together(meanwhile.usage, model.usage, last.0, last.1);
        assert(model.after_take().after_calls(calls).after_failure(model.usage)
            =~= meanwhile.after_failure(model.usage).after_call(last.0, last.1));
    }
}

/// It is the same whether a call is counted before or after usage is added.
proof fn lemma_call_then_together(
    usage: UsageCounts,
    more: UsageCounts,
    caller: Seq<u8>,
    tool: Seq<char>,
)
    ensures
        usage_together(with_call(usage, caller, tool), more) == with_call(
            usage_together(usage, more),
            caller,
            tool,
        ),
{
    let left = usage_together(with_call(usage, caller, tool), more);
    let right = with_call(usage_together(usage, more), caller, tool);
    assert(tools_of(usage_together(usage, more), caller) =~= tools_together(
        tools_of(usage, caller),
        tools_of(more, caller),
    ));
    assert(left[caller] =~= right[caller]);
    assert(left =~= right);
}

/// A delivered report is not sent again: what stays are the calls that came
/// meanwhile. The next window starts where its window ended, or where it
/// started if that is later.
pub proof fn law_delivered_report_is_done(
    model: BeaconModel,
    calls: Seq<(Seq<u8>, Seq<char>)>,
    end: int,
)
    ensures
        ({
            let after = model.after_take().after_calls(calls).after_delivery(end);
            &&& after.last_send == later(model.last_send, end)
            &&& forall|caller: Seq<u8>, tool: Seq<char>|
                #![trigger call_count(after.usage, caller, tool)]
                {
                    let n = occurrences(calls, (caller, tool));
                    call_count(after.usage, caller, tool) == if n > u64::MAX {
                        u64::MAX as int
                    } else {
                        n as int
                    }
                }
        }),
{
    lemma_calls_keep_the_rest(model.after_take(), calls);
    let after = model.after_take().after_calls(calls).after_delivery(end);
    assert forall|caller: Seq<u8>, tool: Seq<char>|
        #![trigger call_count(after.usage, caller, tool)]
        {
            let n = occurrences(calls, (caller, tool));
            call_count(after.usage, caller, tool) == if n > u64::MAX {
                u64::MAX as int
            } else {
                n as int
            }
        } by {
        law_counts_are_numbers_of_calls(model.after_take(), calls, caller, tool);
    }
}

/// Calls change nothing but the usage.
proof fn lemma_calls_keep_the_rest(model: BeaconModel, calls: Seq<(Seq<u8>, Seq<char>)>)
    ensures
        model.after_calls(calls) == (BeaconModel { usage: model.after_calls(calls).usage, ..model }),
    decreases calls.len(),
{
    if calls.len() > 0 {
        lemma_calls_keep_the_rest(model, calls.drop_last());
    }
}

/// The start of the reporting window never moves back.
pub proof fn law_window_start_never_moves_back(
    model: BeaconModel,
    calls: Seq<(Seq<u8>, Seq<char>)>,
    usage: UsageCounts,
    time: int,
)
    ensures
        model.after_calls(calls).last_send == model.last_send,
        model.after_take().last_send == model.last_send,
        model.after_failure(usage).last_send == model.last_send,
        model.after_delivery(time).last_send >= model.last_send,
        model.after_start(time).last_send >= model.last_send,
{
    lemma_calls_keep_the_rest(model, calls);
}

/// Where several reports are under way at once, the order in which they fail
/// or are delivered makes no difference.
pub proof fn law_outcomes_in_any_order(
    model: BeaconModel,
    usage: UsageCounts,
    other_usage: UsageCounts,
    end: int,
    other_end: int,
)
    ensures
        model.after_failure(usage).after_failure(other_usage) == model.after_failure(
            other_usage,
        ).after_failure(usage),
        model.after_failure(usage).after_delivery(end) == model.after_delivery(end).after_failure(
            usage,
        ),
        model.after_delivery(end).after_delivery(other_end) == model.after_delivery(
            other_end,
        ).after_delivery(end),
{
    let left = usage_together(usage_together(model.usage, usage), other_usage);
    let right = usage_together(usage_together(model.usage, other_usage), usage);
    assert forall|caller: Seq<u8>| #[trigger] left.contains_key(caller) implies left[caller]
        == right[caller] by {
        assert(left[caller] =~= right[caller]);
    }
    assert(left =~= right);
}

/// A report is sent only where there is something to report: it has at least
/// one item, and every count in it is at least one.
pub proof fn law_report_is_made_of_calls(activity: Seq<CallerActivity>, usage: UsageCounts)
    requires
        only_calls(usage),
        usage != UsageCounts::empty(),
        lists_usage(activity, usage),
    ensures
        activity.len() > 0,
        forall|i: int| 0 <= i < activity.len() ==> (#[trigger] activity[i]).call_count@ > 0,
{
    if forall|caller: Seq<u8>| !usage.contains_key(caller) {
        assert(usage =~= UsageCounts::empty());
    }
    let caller = choose|caller: Seq<u8>| usage.contains_key(caller);
    if forall|tool: Seq<char>| !usage[caller].contains_key(tool) {
        assert(usage[caller] =~= ToolCounts::empty());
    }
    let tool = choose|tool: Seq<char>| usage[caller].contains_key(tool);
    assert(usage[caller].contains_key(tool));
    assert forall|i: int| 0 <= i < activity.len() implies (#[trigger] activity[i]).call_count@
        > 0 by {
        assert(usage.contains_key(activity[i].caller@));
        assert(counts_positive(usage[activity[i].caller@]));
    }
}

/// The timers that run while `model` is in use: its own, if it has one.
pub open spec fn running_timers(model: BeaconModel) -> Set<TimerId> {
    match model.timer {
        Some(timer) => set![timer],
        None => Set::empty(),
    }
}

/// However often the timer is started, one timer runs: the one that was
/// running is cleared before the new one, `timer`, starts.
pub proof fn law_restart_leaves_one_timer(
    model: BeaconModel,
    running: Set<TimerId>,
    now: int,
    timer: TimerId,
)
    requires
        running == running_timers(model),
    ensures
        ({
            let cleared = match model.timer {
                Some(old_timer) => running.remove(old_timer),
                None => running,
            };
            let started = BeaconModel { timer: Some(timer), ..model.after_start(now) };
            &&& cleared == running_timers(model.after_start(now))
            &&& cleared.insert(timer) == running_timers(started)
        }),
{
    let cleared = match model.timer {
        Some(old_timer) => running.remove(old_timer),
        None => running,
    };
    assert(cleared =~= Set::empty());
    assert(cleared.insert(timer) =~= set![timer]);
}

/// A new beacon has the interval that was chosen, one second where zero was
/// chosen, and one hour where nothing was; it has counted nothing, its window
/// starts at zero, and no timer runs.
pub proof fn law_new_beacon_has_the_chosen_interval(
    tracker: Seq<u8>,
    seconds: u64,
    interval: Option<u64>,
    caller: Seq<u8>,
)
    ensures
        seconds >= 1 ==> BeaconModel::new(tracker, Some(seconds)).interval == seconds,
        BeaconModel::new(tracker, Some(0)).interval == 1,
        BeaconModel::new(tracker, None).interval == 3600,
        BeaconModel::new(tracker, interval).tracker == tracker,
        BeaconModel::new(tracker, interval).last_send == 0,
        BeaconModel::new(tracker, interval).timer is None,
        !BeaconModel::new(tracker, interval).usage.contains_key(caller),
{
}

/// After the timer was started at `now`, the window starts at `now` or where it
/// started before, whichever is later; the usage, the tracker and the interval
/// are as they were, and the timer that was running is given up.
pub proof fn law_start_opens_the_window(model: BeaconModel, now: int)
    ensures
        ({
            let after = model.after_start(now);
            &&& after.last_send >= now
            &&& after.last_send >= model.last_send
            &&& after.last_send == now || after.last_send == model.last_send
            &&& after.usage == model.usage
            &&& after.tracker == model.tracker
            &&& after.interval == model.interval
            &&& after.timer is None
        }),
{
}

/// The first report after the timer was started at the clock reading `now_ns`,
/// and before that reading was passed by an earlier window, covers the time from
/// `now_ns` to the clock reading `end_ns` of the report.
pub proof fn law_first_report_covers_the_time_since_the_start(
    model: BeaconModel,
    now_ns: u64,
    calls: Seq<(Seq<u8>, Seq<char>)>,
    started: (ReportCall, InFlightReport),
    end_ns: u64,
)
    requires
        model.last_send <= now_ns <= end_ns <= i64::MAX,
        reports(
            started,
            model.after_start(timestamp(now_ns)).after_calls(calls),
            timestamp(end_ns),
        ),
    ensures
        started.0.stats.start_timestamp_ns@ == now_ns,
        started.0.stats.end_timestamp_ns@ == end_ns,
{
    law_timestamp_is_the_reading(now_ns);
    law_timestamp_is_the_reading(end_ns);
    lemma_calls_keep_the_rest(model.after_start(timestamp(now_ns)), calls);
}

/// A call adds one to the count of its caller and tool, which becomes one where
/// there was none and stays at the largest `u64`; every other count, and all
/// else, is as it was.
pub proof fn law_call_adds_one(
    model: BeaconModel,
    caller: Seq<u8>,
    tool: Seq<char>,
    other_caller: Seq<u8>,
    other_tool: Seq<char>,
)
    requires
        (other_caller, other_tool) != (caller, tool),
    ensures
        ({
            let after = model.after_call(caller, tool);
            let had = model.usage.contains_key(caller) && model.usage[caller].contains_key(tool);
            let had_other = model.usage.contains_key(other_caller)
                && model.usage[other_caller].contains_key(other_tool);
            &&& after.usage.contains_key(caller)
            &&& after.usage[caller].contains_key(tool)
            &&& !had ==> after.usage[caller][tool] == 1
            &&& had && model.usage[caller][tool] < u64::MAX ==> after.usage[caller][tool]
                == model.usage[caller][tool] + 1
            &&& had && model.usage[caller][tool] == u64::MAX ==> after.usage[caller][tool]
                == u64::MAX
            &&& had_other <==> after.usage.contains_key(other_caller)
                && after.usage[other_caller].contains_key(other_tool)
            &&& had_other ==> after.usage[other_caller][other_tool]
                == model.usage[other_caller][other_tool]
            &&& after.last_send == model.last_send
            &&& after.tracker == model.tracker
            &&& after.interval == model.interval
            &&& after.timer == model.timer
        }),
{
}

/// Usage that is put back adds to what was counted meanwhile: a caller and tool
/// with a count on one side keep it, one with both gets the sum, and the largest
/// `u64` where the sum is beyond it. All else is as it was.
pub proof fn law_usage_put_back_adds_up(
    model: BeaconModel,
    usage: UsageCounts,
    caller: Seq<u8>,
    tool: Seq<char>,
)
    ensures
        ({
            let after = model.after_failure(usage);
            let here = model.usage.contains_key(caller) && model.usage[caller].contains_key(tool);
            let back = usage.contains_key(caller) && usage[caller].contains_key(tool);
            let there = after.usage.contains_key(caller) && after.usage[caller].contains_key(tool);
            &&& there <==> here || back
            &&& here && !back ==> after.usage[caller][tool] == model.usage[caller][tool]
            &&& !here && back ==> after.usage[caller][tool] == usage[caller][tool]
            &&& here && back && model.usage[caller][tool] + usage[caller][tool] <= u64::MAX
                ==> after.usage[caller][tool] == model.usage[caller][tool] + usage[caller][tool]
            &&& here && back && model.usage[caller][tool] + usage[caller][tool] > u64::MAX
                ==> after.usage[caller][tool] == u64::MAX
            &&& after.usage.contains_key(caller) <==> model.usage.contains_key(caller)
                || usage.contains_key(caller)
            &&& after.last_send == model.last_send
            &&& after.tracker == model.tracker
            &&& after.interval == model.interval
            &&& after.timer == model.timer
        }),
{
}

/// A delivery moves the start of the window to the end of the window that was
/// reported, or leaves it where it is later; a report that is taken leaves no
/// usage behind. All else is as it was.
pub proof fn law_delivery_commits_the_window(model: BeaconModel, end: int, caller: Seq<u8>)
    ensures
        model.after_delivery(end).last_send >= end,
        model.after_delivery(end).last_send >= model.last_send,
        model.after_delivery(end).last_send == end || model.after_delivery(end).last_send
            == model.last_send,
        model.after_delivery(end).usage == model.usage,
        model.after_delivery(end).tracker == model.tracker,
        model.after_delivery(end).interval == model.interval,
        model.after_delivery(end).timer == model.timer,
        !model.after_take().usage.contains_key(caller),
        model.after_take().last_send == model.last_send,
        model.after_take().tracker == model.tracker,
        model.after_take().interval == model.interval,
        model.after_take().timer == model.timer,
{
}

/// The calls put a caller and tool into the usage exactly where one of them is
/// theirs, or they were there before.
proof fn lemma_calls_are_counted(
    model: BeaconModel,
    calls: Seq<(Seq<u8>, Seq<char>)>,
    caller: Seq<u8>,
    tool: Seq<char>,
)
    ensures
        ({
            let before = model.usage.contains_key(caller) && model.usage[caller].contains_key(tool);
            let after = model.after_calls(calls).usage;
            after.contains_key(caller) && after[caller].contains_key(tool) <==> before
                || occurrences(calls, (caller, tool)) > 0
        }),
    decreases calls.len(),
{
    if calls.len() > 0 {
        let front = model.after_calls(calls.drop_last());
        lemma_calls_are_counted(model, calls.drop_last(), caller, tool);
        if calls.last() != (caller, tool) {
            law_call_adds_one(front, calls.last().0, calls.last().1, caller, tool);
        } else {
            assert(front.after_call(caller, tool).usage[caller].contains_key(tool));
        }
    }
}

/// A report goes to the tracker's method `log_call` and lists the calls since the
/// last report was taken: each caller and tool among them once, with the number
/// of their calls, as far as a `u64` can tell, and nothing else.
pub proof fn law_report_lists_the_calls(
    model: BeaconModel,
    calls: Seq<(Seq<u8>, Seq<char>)>,
    started: (ReportCall, InFlightReport),
    end: int,
    caller: Seq<u8>,
    tool: Seq<char>,
)
    requires
        reports(started, model.after_take().after_calls(calls), end),
    ensures
        started.0.tracker_canister_id@ == model.tracker,
        started.0.method@ == "log_call"@,
        started.0.stats.start_timestamp_ns@ == model.last_send,
        started.0.stats.end_timestamp_ns@ == end,
        ({
            let activity = started.0.stats.activity@;
            let n = occurrences(calls, (caller, tool));
            &&& n > 0 <==> exists|i: int|
                0 <= i < activity.len() && (#[trigger] activity[i]).caller@ == caller
                    && activity[i].tool_id@ == tool
            &&& forall|i: int|
                0 <= i < activity.len() && (#[trigger] activity[i]).caller@ == caller
                    && activity[i].tool_id@ == tool ==> activity[i].call_count@ == if n > u64::MAX {
                    u64::MAX as nat
                } else {
                    n
                }
            &&& forall|i: int, j: int|
                0 <= i < j < activity.len() ==> (#[trigger] activity[i]).caller@ != (
                #[trigger] activity[j]).caller@ || activity[i].tool_id@ != activity[j].tool_id@
        }),
{
    let base = model.after_take();
    let usage = base.after_calls(calls).usage;
    let activity = started.0.stats.activity@;
    lemma_calls_keep_the_rest(base, calls);
    lemma_calls_are_counted(base, calls, caller, tool);
    law_counts_are_numbers_of_calls(base, calls, caller, tool);
    if occurrences(calls, (caller, tool)) > 0 {
        assert(usage[caller].contains_key(tool));
    }
}

/// A report tells all that was counted: every caller and tool with a count is in
/// it with that count, so a report determines the usage it was made from.
pub proof fn law_report_determines_the_usage(
    activity: Seq<CallerActivity>,
    first: UsageCounts,
    second: UsageCounts,
)
    requires
        only_calls(first),
        only_calls(second),
        lists_usage(activity, first),
        lists_usage(activity, second),
    ensures
        first == second,
{
    lemma_report_covers(activity, first, second);
    lemma_report_covers(activity, second, first);
    assert forall|caller: Seq<u8>| #[trigger] first.contains_key(caller) implies first[caller]
        == second[caller] by {
        assert(first[caller] =~= second[caller]);
    }
    assert(first =~= second);
}

proof fn lemma_report_covers(
    activity: Seq<CallerActivity>,
    first: UsageCounts,
    second: UsageCounts,
)
    requires
        only_calls(first),
        lists_usage(activity, first),
        lists_usage(activity, second),
    ensures
        forall|caller: Seq<u8>| #[trigger]
            first.contains_key(caller) ==> second.contains_key(caller),
        forall|caller: Seq<u8>, tool: Seq<char>|
            first.contains_key(caller) && #[trigger] first[caller].contains_key(tool)
                ==> second[caller].contains_key(tool) && first[caller][tool]
                == second[caller][tool],
{
    assert forall|caller: Seq<u8>, tool: Seq<char>|
        first.contains_key(caller) && #[trigger] first[caller].contains_key(
            tool,
        ) implies second.contains_key(caller) && second[caller].contains_key(tool)
        && first[caller][tool] == second[caller][tool] by {
        let i = choose|i: int|
            0 <= i < activity.len() && (#[trigger] activity[i]).caller@ == caller
                && activity[i].tool_id@ == tool;
        assert(activity[i].call_count@ == first[caller][tool]);
    }
    assert forall|caller: Seq<u8>| #[trigger] first.contains_key(caller) implies second.contains_key(
        caller,
    ) by {
        if forall|tool: Seq<char>| !first[caller].contains_key(tool) {
            assert(first[caller] =~= ToolCounts::empty());
        }
        let tool = choose|tool: Seq<char>| first[caller].contains_key(tool);
        assert(first[caller].contains_key(tool));
    }
}

/// What is said of a reply that the decoder refused.
pub proof fn law_refused_reply_is_named()
    ensures
        undecodable_prefix()
            == "candid decode failed for type: core::result::Result<(), alloc::string::String>, candid error: "@,
{
}

/// Where the tracker accepted, nothing but a refusal by the decoder stands between
/// its reply and a delivery, and where it refused with `text`, the sender learns
/// `text`. Here `decoded` is what the decoder gave for the reply `message`, and
/// `result` is what [`finish_beacon`] makes of it.
pub proof fn law_only_the_decoder_stops_a_delivery(
    message: Seq<u8>,
    decoded: Result<Result<(), String>, String>,
    result: Result<(), String>,
    text: Seq<char>,
)
    requires
        text_result_decoded(message, decoded),
        match decoded {
            Ok(answer) => result == answer,
            Err(reason) => result is Err && result->Err_0@ == undecodable_prefix() + reason@,
        },
    ensures
        message == ok_message() ==> (result is Ok <==> decoded is Ok),
        message == err_message(text) ==> result is Err,
        message == err_message(text) && decoded is Ok ==> result->Err_0@ == text,
        never_text_result(message) ==> result is Err,
{
    law_read_gives_the_result_that_was_written(message, decoded, decoded, text);
}

} // verus!
