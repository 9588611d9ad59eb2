use ic_cdk_timers::TimerId;
use ic_rmcp::beacon::{
    begin_beacon, begin_report, decoded_outcome, finish_beacon, finish_report, init, start_timer,
    stop_timer, timer_started, track_call, BeaconContext, DEFAULT_REPORTING_INTERVAL_SECONDS,
};
use ic_rmcp::numbers::{Int, Nat};
use ic_rmcp::principal::Principal;

fn principal(text: &str) -> Principal {
    Principal::from_slice(candid::Principal::from_text(text).unwrap().as_slice())
}

fn anonymous() -> Principal {
    Principal::from_slice(candid::Principal::anonymous().as_slice())
}

fn track(context: &mut BeaconContext, caller: Principal, tool: &str, times: u64) {
    for _ in 0..times {
        track_call(context, caller, tool.to_string());
    }
}

#[test]
fn track_call_aggregates_by_caller_and_tool() {
    let mut context = init(anonymous(), Some(60));
    let caller = principal("2vxsx-fae");

    track_call(&mut context, caller, "search".to_string());
    track_call(&mut context, caller, "search".to_string());
    track_call(&mut context, caller, "read".to_string());

    assert_eq!(context.call_count(principal("2vxsx-fae"), "search"), Some(2));
    assert_eq!(context.call_count(principal("2vxsx-fae"), "read"), Some(1));
}

#[test]
fn successful_delivery_sends_the_expected_payload_and_commits_timestamp() {
    let tracker = principal("aaaaa-aa");
    let mut context = init(tracker, Some(60));
    start_timer(&mut context, 10);
    assert_eq!(context.last_send_timestamp_ns(), 10);
    track_call(&mut context, principal("2vxsx-fae"), "search".to_string());
    track_call(&mut context, principal("2vxsx-fae"), "search".to_string());

    let (call, report) = begin_report(&mut context, 25).unwrap();
    let result = finish_report(&mut context, report, Ok(()));

    assert_eq!(result, Ok(()));
    let (called_tracker, stats) = (call.tracker_canister_id, call.stats);
    assert_eq!(called_tracker, tracker);
    assert_eq!(stats.start_timestamp_ns, Int::from(10));
    assert_eq!(stats.end_timestamp_ns, Int::from(25));
    assert_eq!(stats.activity.len(), 1);
    assert_eq!(stats.activity[0].tool_id, "search");
    assert_eq!(stats.activity[0].call_count, Nat::from(2u64));
    assert!(context.has_no_usage());
    assert_eq!(context.last_send_timestamp_ns(), 25);
}

#[test]
fn failed_delivery_restores_usage_for_the_next_attempt() {
    let mut context = init(anonymous(), Some(60));
    let caller = principal("2vxsx-fae");
    track_call(&mut context, caller, "search".to_string());

    let (call, report) = begin_report(&mut context, 25).unwrap();
    assert_eq!(call.tracker_canister_id, anonymous());
    let result = finish_report(
        &mut context,
        report,
        Err("tracker rejected the report".to_string()),
    );

    assert_eq!(result, Err("tracker rejected the report".to_string()));
    assert_eq!(context.call_count(caller, "search"), Some(1));
    assert_eq!(context.last_send_timestamp_ns(), 0);
}

#[test]
fn interval_is_one_hour_by_default_and_never_zero() {
    assert_eq!(DEFAULT_REPORTING_INTERVAL_SECONDS, 3600);
    assert_eq!(init(anonymous(), None).reporting_interval_seconds(), 3600);
    assert_eq!(init(anonymous(), Some(0)).reporting_interval_seconds(), 1);
    assert_eq!(init(anonymous(), Some(1)).reporting_interval_seconds(), 1);
    assert_eq!(init(anonymous(), Some(u64::MAX)).reporting_interval_seconds(), u64::MAX);
}

#[test]
fn nothing_tracked_is_nothing_sent() {
    let mut context = init(anonymous(), None);
    assert!(begin_report(&mut context, 5).is_none());
    assert!(begin_beacon(&mut context, 5).is_none());
    assert_eq!(context.last_send_timestamp_ns(), 0);
}

#[test]
fn calls_count_for_their_caller_and_tool_only() {
    let first = principal("2vxsx-fae");
    let second = principal("rrkah-fqaaa-aaaaa-aaaaq-cai");
    let mut context = init(anonymous(), None);
    track(&mut context, first, "search", 3);
    track(&mut context, second, "search", 1);
    track(&mut context, second, "read", 2);
    assert_eq!(context.call_count(first, "search"), Some(3));
    assert_eq!(context.call_count(first, "read"), None);
    assert_eq!(context.call_count(second, "search"), Some(1));
    assert_eq!(context.call_count(second, "read"), Some(2));
    assert_eq!(context.call_count(anonymous(), "read"), None);
}

#[test]
fn report_lists_every_caller_and_tool_once() {
    let first = principal("aaaaa-aa");
    let second = principal("rrkah-fqaaa-aaaaa-aaaaq-cai");
    let mut context = init(anonymous(), None);
    track(&mut context, first, "search", 3);
    track(&mut context, second, "search", 1);
    track(&mut context, first, "read", 2);
    track(&mut context, second, "", 5);

    let (call, _report) = begin_beacon(&mut context, 9).unwrap();
    assert_eq!(call.method, "log_call");
    let activity = call.stats.activity;
    assert_eq!(activity.len(), 4);
    for (caller, tool, count) in
        [(first, "search", 3), (second, "search", 1), (first, "read", 2), (second, "", 5)]
    {
        let matching: Vec<_> = activity
            .iter()
            .filter(|item| item.caller == caller && item.tool_id == tool)
            .collect();
        assert_eq!(matching.len(), 1);
        assert_eq!(matching[0].call_count, Nat::from(count));
    }
    assert_eq!(activity[0].caller, activity[1].caller);
    assert_eq!(activity[2].caller, activity[3].caller);
    assert!(activity.iter().all(|item| item.call_count != Nat::from(0)));
}

#[test]
fn calls_during_a_failed_delivery_are_kept_too() {
    let first = principal("2vxsx-fae");
    let second = principal("rrkah-fqaaa-aaaaa-aaaaq-cai");
    let mut context = init(anonymous(), None);
    track(&mut context, first, "search", 3);

    let (_, report) = begin_report(&mut context, 25).unwrap();
    track(&mut context, first, "search", 2);
    track(&mut context, second, "read", 1);
    finish_report(&mut context, report, Err("busy".to_string())).unwrap_err();

    assert_eq!(context.call_count(first, "search"), Some(5));
    assert_eq!(context.call_count(second, "read"), Some(1));
}

#[test]
fn calls_during_a_delivery_count_for_the_next_window() {
    let caller = principal("2vxsx-fae");
    let mut context = init(anonymous(), None);
    track(&mut context, caller, "search", 3);

    let (_, report) = begin_report(&mut context, 25).unwrap();
    track(&mut context, caller, "search", 2);
    finish_report(&mut context, report, Ok(())).unwrap();

    let (call, _) = begin_report(&mut context, 40).unwrap();
    assert_eq!(call.stats.start_timestamp_ns, Int::from(25));
    assert_eq!(call.stats.activity[0].call_count, Nat::from(2));
}

#[test]
fn reports_under_way_end_in_any_order() {
    let caller = principal("2vxsx-fae");
    let mut results = Vec::new();
    for first_fails_first in [true, false] {
        let mut context = init(anonymous(), None);
        track(&mut context, caller, "search", 3);
        let (_, one) = begin_report(&mut context, 10).unwrap();
        track(&mut context, caller, "search", 4);
        let (_, two) = begin_report(&mut context, 20).unwrap();
        let (early, late) = if first_fails_first { (one, two) } else { (two, one) };
        finish_report(&mut context, early, Err("a".to_string())).unwrap_err();
        finish_report(&mut context, late, Err("b".to_string())).unwrap_err();
        results.push(context.call_count(caller, "search"));
    }
    assert_eq!(results, vec![Some(7), Some(7)]);
}

#[test]
fn window_start_never_moves_back() {
    let caller = principal("2vxsx-fae");
    let mut context = init(anonymous(), None);
    start_timer(&mut context, 100);
    start_timer(&mut context, 50);
    assert_eq!(context.last_send_timestamp_ns(), 100);
    track(&mut context, caller, "search", 1);
    let (_, report) = begin_report(&mut context, 60).unwrap();
    finish_report(&mut context, report, Ok(())).unwrap();
    assert_eq!(context.last_send_timestamp_ns(), 100);
}

#[test]
fn restart_clears_the_timer_that_was_running() {
    let mut context = init(anonymous(), Some(60));
    let plan = start_timer(&mut context, 1);
    assert!(plan.clear.is_none());
    assert_eq!(plan.interval_seconds, 60);
    timer_started(&mut context, TimerId::default());
    let plan = start_timer(&mut context, 2);
    assert_eq!(plan.clear, Some(TimerId::default()));
    assert_eq!(stop_timer(&mut context), None);
    timer_started(&mut context, TimerId::default());
    assert_eq!(stop_timer(&mut context), Some(TimerId::default()));
    assert_eq!(stop_timer(&mut context), None);
}

#[test]
fn accepted_report_is_done() {
    let caller = principal("2vxsx-fae");
    let mut context = init(anonymous(), None);
    track(&mut context, caller, "search", 1);
    let (_, report) = begin_beacon(&mut context, 33).unwrap();
    let reply = candid::encode_one(Ok::<(), String>(())).unwrap();
    assert_eq!(finish_beacon(&mut context, report, Ok(reply)), Ok(()));
    assert!(context.has_no_usage());
    assert_eq!(context.last_send_timestamp_ns(), 33);
}

#[test]
fn refused_report_is_kept_with_the_trackers_words() {
    let caller = principal("2vxsx-fae");
    let mut context = init(anonymous(), None);
    track(&mut context, caller, "search", 4);
    let (_, report) = begin_beacon(&mut context, 33).unwrap();
    let reply = candid::encode_one(Err::<(), String>("too many r\u{e9}ports".to_string())).unwrap();
    assert_eq!(
        finish_beacon(&mut context, report, Ok(reply)),
        Err("too many r\u{e9}ports".to_string())
    );
    assert_eq!(context.call_count(caller, "search"), Some(4));
    assert_eq!(context.last_send_timestamp_ns(), 0);
}

#[test]
fn failed_call_keeps_the_report() {
    let caller = principal("2vxsx-fae");
    let mut context = init(anonymous(), None);
    track(&mut context, caller, "search", 4);
    let (_, report) = begin_beacon(&mut context, 33).unwrap();
    assert_eq!(
        finish_beacon(&mut context, report, Err("unreachable".to_string())),
        Err("unreachable".to_string())
    );
    assert_eq!(context.call_count(caller, "search"), Some(4));
}

#[test]
fn undecodable_reply_keeps_the_report() {
    let caller = principal("2vxsx-fae");
    let mut context = init(anonymous(), None);
    track(&mut context, caller, "search", 4);
    let (_, report) = begin_beacon(&mut context, 33).unwrap();
    let error = finish_beacon(&mut context, report, Ok(vec![1, 2, 3])).unwrap_err();
    let prefix = "candid decode failed for type: \
                  core::result::Result<(), alloc::string::String>, candid error: ";
    assert!(error.starts_with(prefix));
    assert_eq!(context.call_count(caller, "search"), Some(4));
}

#[test]
fn reply_without_the_expected_value_keeps_the_report() {
    let caller = principal("2vxsx-fae");
    let prefix = "candid decode failed for type: \
                  core::result::Result<(), alloc::string::String>, candid error: ";
    let empty = vec![0x44, 0x49, 0x44, 0x4c, 0x00, 0x00];
    let number = candid::encode_one(candid::Nat::from(1u64)).unwrap();
    let text = candid::encode_one("Ok").unwrap();
    let mut cut = candid::encode_one(Ok::<(), String>(())).unwrap();
    cut.pop();
    for reply in [empty, number, text, cut] {
        let mut context = init(anonymous(), None);
        track(&mut context, caller, "search", 4);
        let (_, report) = begin_beacon(&mut context, 33).unwrap();
        let error = finish_beacon(&mut context, report, Ok(reply)).unwrap_err();
        assert!(error.starts_with(prefix));
        assert_eq!(context.call_count(caller, "search"), Some(4));
        assert_eq!(context.last_send_timestamp_ns(), 0);
    }
}

#[test]
fn damaged_reply_keeps_the_report() {
    let caller = principal("2vxsx-fae");
    let ok = candid::encode_one(Ok::<(), String>(())).unwrap();
    let err = candid::encode_one(Err::<(), String>("r\u{e9}fused".repeat(30))).unwrap();
    let mut replies = Vec::new();
    for message in [&ok, &err] {
        for len in 0..message.len() {
            replies.push(message[..len].to_vec());
        }
        for extra in [0x00, 0x01, 0xff] {
            let mut longer = message.clone();
            longer.push(extra);
            replies.push(longer);
        }
    }
    for label in 2..0x80 {
        let mut message = ok.clone();
        message.pop();
        message.push(label);
        replies.push(message);
    }
    for code in 0x00..=0xffu8 {
        replies.push(vec![0x44, 0x49, 0x44, 0x4c, 0x00, 0x01, code, 0x00]);
        if code != 0x6b {
            replies.push(vec![0x44, 0x49, 0x44, 0x4c, 0x01, code, 0x00, 0x01, 0x00, 0x00]);
            replies.push(vec![0x44, 0x49, 0x44, 0x4c, 0x01, code, 0x7d, 0x01, 0x00, 0x00]);
        }
    }
    replies.push(candid::encode_one(Some(Ok::<(), String>(()))).unwrap());
    replies.push(candid::encode_one(vec!["Ok"]).unwrap());
    for reply in replies {
        let mut context = init(anonymous(), None);
        track(&mut context, caller, "search", 4);
        let (_, report) = begin_beacon(&mut context, 33).unwrap();
        let error = finish_beacon(&mut context, report, Ok(reply)).unwrap_err();
        assert!(error.starts_with("candid decode failed for type: "));
        assert_eq!(context.call_count(caller, "search"), Some(4));
        assert_eq!(context.last_send_timestamp_ns(), 0);
    }
}

#[test]
fn reply_with_a_further_value_is_read_by_its_first() {
    let caller = principal("2vxsx-fae");
    let mut context = init(anonymous(), None);
    track(&mut context, caller, "search", 4);
    let (_, report) = begin_beacon(&mut context, 33).unwrap();
    let reply = candid::encode_args((Ok::<(), String>(()), 7u64)).unwrap();
    assert_eq!(finish_beacon(&mut context, report, Ok(reply)), Ok(()));
    assert!(context.has_no_usage());
}

#[test]
fn decoded_replies_decide() {
    assert_eq!(decoded_outcome(Ok(Ok(()))), Ok(()));
    assert_eq!(decoded_outcome(Ok(Err("no".to_string()))), Err("no".to_string()));
    assert_eq!(
        decoded_outcome(Err("bad magic".to_string())),
        Err("candid decode failed for type: core::result::Result<(), alloc::string::String>, \
             candid error: bad magic"
            .to_string())
    );
}

#[test]
fn result_messages_have_the_stated_bytes() {
    let header = vec![
        0x44, 0x49, 0x44, 0x4c, 0x01, 0x6b, 0x02, 0xbc, 0x8a, 0x01, 0x7f, 0xc5, 0xfe, 0xd2, 0x01,
        0x71, 0x01, 0x00,
    ];
    let mut ok = header.clone();
    ok.push(0x00);
    assert_eq!(candid::encode_one(Ok::<(), String>(())).unwrap(), ok);
    let mut err = header;
    err.extend([0x01, 0x02, 0x6e, 0x6f]);
    assert_eq!(candid::encode_one(Err::<(), String>("no".to_string())).unwrap(), err);
}

#[test]
fn clock_readings_beyond_the_signed_range_are_negative() {
    let caller = principal("2vxsx-fae");
    let mut context = init(anonymous(), None);
    track(&mut context, caller, "search", 1);
    let (call, _) = begin_beacon(&mut context, u64::MAX - 9).unwrap();
    assert_eq!(call.stats.end_timestamp_ns, Int::from(-10));
}
