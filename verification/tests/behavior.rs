use gh_notify::auth::AuthAction;
use gh_notify::auth::AuthError;
use gh_notify::auth::AuthEvent;
use gh_notify::auth::AuthState;
use gh_notify::auth::AuthorizationRequest;
use gh_notify::auth::auth_step;
use gh_notify::auth::build_authorization_url;
use gh_notify::cache::filter_unseen;
use gh_notify::cache::merge;
use gh_notify::cache::saved_or_empty;
use gh_notify::codec::decode_config;
use gh_notify::codec::decode_notifications;
use gh_notify::codec::encode_config;
use gh_notify::codec::encode_notification;
use gh_notify::codec::encode_notifications;
use gh_notify::data::Notification;
use gh_notify::data::Notifications;
use gh_notify::data::Repository;
use gh_notify::data::Subject;
use gh_notify::paths::get_config_path;
use gh_notify::paths::get_notifications_path;
use gh_notify::poll::DEFAULT_POLL_INTERVAL_SECS;
use gh_notify::poll::PollDirective;
use gh_notify::poll::next_sleep_secs;
use gh_notify::poll::plan_cycle;
use gh_notify::present::PromptReply;
use gh_notify::present::classify_action;
use gh_notify::present::plan_presentation;
use gh_notify::present::rewrite_web_url;
use gh_notify::remote::contains_marker;
use gh_notify::remote::json_field;
use gh_notify::remote::parse_u64;
use gh_notify::remote::query_param;
use gh_notify::remote::split_objects;

fn notif(id: &str, updated_at: &str, title: &str) -> Notification {
    Notification {
        id: id.as_bytes().to_vec(),
        updated_at: updated_at.as_bytes().to_vec(),
        subject: Subject {
            title: title.as_bytes().to_vec(),
            subject_type: b"Issue".to_vec(),
            url: b"https://api.github.com/repos/o/r/issues/1".to_vec(),
        },
        repository: Repository { name: b"r".to_vec() },
    }
}

fn same_notif(a: &Notification, b: &Notification) -> bool {
    a.id == b.id
        && a.updated_at == b.updated_at
        && a.subject.title == b.subject.title
        && a.subject.subject_type == b.subject.subject_type
        && a.subject.url == b.subject.url
        && a.repository.name == b.repository.name
}

fn same_batch(a: &Notifications, b: &Notifications) -> bool {
    a.list.len() == b.list.len()
        && a.list.iter().zip(b.list.iter()).all(|(x, y)| same_notif(x, y))
}

#[test]
fn filter_unseen_keeps_only_new_pairs() {
    let saved = Notifications { list: vec![notif("1", "T1", "Fix bug")] };
    let fetched = Notifications {
        list: vec![notif("1", "T1", "Fix bug"), notif("2", "T2", "Add feature")],
    };
    let unseen = filter_unseen(&fetched, &saved);
    assert_eq!(unseen.list.len(), 1);
    assert_eq!(unseen.list[0].id, b"2".to_vec());
    assert_eq!(unseen.list[0].subject.title, b"Add feature".to_vec());
}

#[test]
fn filter_unseen_keys_on_timestamp_and_title_not_id() {
    // A different identifier with the same (timestamp, title) pair still
    // counts as seen; a changed title makes it new again.
    let saved = Notifications { list: vec![notif("1", "T1", "Fix bug")] };
    let same_pair = Notifications { list: vec![notif("9", "T1", "Fix bug")] };
    assert_eq!(filter_unseen(&same_pair, &saved).list.len(), 0);
    let new_title = Notifications { list: vec![notif("1", "T1", "Fix bug!")] };
    assert_eq!(filter_unseen(&new_title, &saved).list.len(), 1);
}

#[test]
fn filter_unseen_of_empty_saved_returns_whole_batch() {
    let saved = saved_or_empty(None);
    let fetched = Notifications {
        list: vec![notif("1", "T1", "a"), notif("2", "T2", "b")],
    };
    let unseen = filter_unseen(&fetched, &saved);
    assert_eq!(unseen.list.len(), 2);
}

#[test]
fn merge_keeps_everything_saved_and_adds_unseen() {
    let saved = Notifications { list: vec![notif("1", "T1", "Fix bug")] };
    let fetched = Notifications {
        list: vec![notif("1", "T1", "Fix bug"), notif("2", "T2", "Add feature")],
    };
    let merged = merge(&fetched, &saved);
    assert_eq!(merged.list.len(), 2);
    assert_eq!(merged.list[0].id, b"2".to_vec());
    assert_eq!(merged.list[1].id, b"1".to_vec());
}

#[test]
fn merge_twice_equals_merge_once() {
    let saved = Notifications {
        list: vec![notif("1", "T1", "a"), notif("3", "T3", "c")],
    };
    let fetched = Notifications {
        list: vec![notif("1", "T1", "a"), notif("2", "T2", "b")],
    };
    let once = merge(&fetched, &saved);
    let twice = merge(&fetched, &once);
    assert!(same_batch(&once, &twice));
}

#[test]
fn merge_keys_on_timestamp_and_title_not_id() {
    // The same identifier with a fresh timestamp is a new notification:
    // it enters the persisted set, so a later cycle no longer counts it
    // unseen.
    let saved = Notifications { list: vec![notif("5", "T1", "x")] };
    let fetched = Notifications { list: vec![notif("5", "T2", "x")] };
    let merged = merge(&fetched, &saved);
    assert_eq!(merged.list.len(), 2);
    assert_eq!(merged.list[0].updated_at, b"T2".to_vec());
    assert_eq!(merged.list[1].updated_at, b"T1".to_vec());
    assert_eq!(filter_unseen(&fetched, &merged).list.len(), 0);
}

#[test]
fn merge_keeps_saved_entry_absent_from_new_batch() {
    // A notification that a later poll omits must not vanish from the
    // persisted set.
    let saved = Notifications { list: vec![notif("7", "T7", "old")] };
    let fetched = Notifications { list: vec![notif("8", "T8", "new")] };
    let merged = merge(&fetched, &saved);
    assert!(merged.list.iter().any(|n| n.id == b"7".to_vec()));
    assert!(merged.list.iter().any(|n| n.id == b"8".to_vec()));
}

#[test]
fn config_round_trip_returns_same_token() {
    let token = b"abc123TOKEN".to_vec();
    let encoded = encode_config(&token);
    assert_eq!(encoded, b"{\"token\":\"abc123TOKEN\"}".to_vec());
    assert_eq!(decode_config(&encoded), Some(token));
}

#[test]
fn config_round_trip_escapes_quotes_and_backslashes() {
    let token = b"a\"b\\c".to_vec();
    let encoded = encode_config(&token);
    assert_eq!(encoded, b"{\"token\":\"a\\\"b\\\\c\"}".to_vec());
    assert_eq!(decode_config(&encoded), Some(token));
}

#[test]
fn corrupted_config_decodes_to_nothing() {
    assert_eq!(decode_config(&b"".to_vec()), None);
    assert_eq!(decode_config(&b"{\"token\":".to_vec()), None);
    assert_eq!(decode_config(&b"{\"token\":\"abc\"} ".to_vec()), None);
    assert_eq!(decode_config(&b"{\"token\":\"abc".to_vec()), None);
    assert_eq!(decode_config(&b"not json at all".to_vec()), None);
    assert_eq!(decode_config(&b"{\"token\":\"a\\xb\"}".to_vec()), None);
}

#[test]
fn cache_round_trip_returns_same_set() {
    let batch = Notifications {
        list: vec![notif("1", "T1", "Fix \"the\" bug"), notif("2", "T2", "b\\slash")],
    };
    let encoded = encode_notifications(&batch);
    let decoded = decode_notifications(&encoded).expect("cache must decode");
    assert!(same_batch(&batch, &decoded));
}

#[test]
fn cache_round_trip_of_empty_set() {
    let batch = Notifications { list: vec![] };
    let encoded = encode_notifications(&batch);
    assert_eq!(encoded, b"{\"list\":[]}".to_vec());
    let decoded = decode_notifications(&encoded).expect("cache must decode");
    assert_eq!(decoded.list.len(), 0);
}

#[test]
fn encoded_notification_is_flat_json_object() {
    let n = notif("1", "T1", "Fix bug");
    let encoded = encode_notification(&n);
    assert_eq!(
        encoded,
        b"{\"id\":\"1\",\"updated_at\":\"T1\",\"title\":\"Fix bug\",\"type\":\"Issue\",\"url\":\"https://api.github.com/repos/o/r/issues/1\",\"repository\":\"r\"}".to_vec()
    );
}

#[test]
fn corrupted_cache_decodes_to_nothing() {
    assert_eq!(decode_notifications(&b"".to_vec()).is_none(), true);
    assert_eq!(decode_notifications(&b"{\"list\":[".to_vec()).is_none(), true);
    assert_eq!(decode_notifications(&b"{\"list\":[}]".to_vec()).is_none(), true);
    assert_eq!(decode_notifications(&b"garbage".to_vec()).is_none(), true);
}

#[test]
fn omitted_poll_interval_falls_back_to_default() {
    let directive = PollDirective {
        poll_interval: None,
        rate_limit: Some(60),
        rate_limit_remaining: Some(59),
    };
    assert_eq!(next_sleep_secs(&directive), 60);
    assert_eq!(DEFAULT_POLL_INTERVAL_SECS, 60);
}

#[test]
fn provided_poll_interval_is_used() {
    let directive = PollDirective {
        poll_interval: Some(30),
        rate_limit: None,
        rate_limit_remaining: None,
    };
    assert_eq!(next_sleep_secs(&directive), 30);
}

#[test]
fn cycle_plan_displays_unseen_and_persists_merged() {
    let saved = Notifications { list: vec![notif("1", "T1", "Fix bug")] };
    let fetched = Notifications {
        list: vec![notif("1", "T1", "Fix bug"), notif("2", "T2", "Add feature")],
    };
    let directive = PollDirective {
        poll_interval: None,
        rate_limit: None,
        rate_limit_remaining: None,
    };
    let plan = plan_cycle(&fetched, &saved, &directive);
    assert_eq!(plan.to_display.list.len(), 1);
    assert_eq!(plan.to_display.list[0].id, b"2".to_vec());
    assert_eq!(plan.to_persist.list.len(), 2);
    assert_eq!(plan.sleep_secs, 60);
}

#[test]
fn listener_timeout_fails_with_timeout() {
    let (state, action) = auth_step(AuthState::AwaitingRedirect, 120, AuthEvent::ListenerTimedOut);
    assert!(matches!(state, AuthState::Failed { error: AuthError::Timeout }));
    assert!(matches!(action, AuthAction::ReportFailure { error: AuthError::Timeout }));
}

#[test]
fn late_capture_fails_with_timeout() {
    let (state, _) = auth_step(
        AuthState::AwaitingRedirect,
        120,
        AuthEvent::RedirectCaptured { code: b"c0de".to_vec(), elapsed_secs: 121 },
    );
    assert!(matches!(state, AuthState::Failed { error: AuthError::Timeout }));
}

#[test]
fn early_capture_exchanges_promptly() {
    // Two seconds into a 120-second timeout: the code is exchanged at
    // once, and the exchanged token finishes the flow.
    let (state, action) = auth_step(
        AuthState::AwaitingRedirect,
        120,
        AuthEvent::RedirectCaptured { code: b"c0de".to_vec(), elapsed_secs: 2 },
    );
    assert!(matches!(state, AuthState::Exchanging));
    match action {
        AuthAction::ExchangeCode { code } => assert_eq!(code, b"c0de".to_vec()),
        _ => panic!("expected an exchange"),
    }
    let (state, action) = auth_step(
        state,
        120,
        AuthEvent::ExchangeSucceeded { token: b"t0ken".to_vec() },
    );
    match state {
        AuthState::Done { token } => assert_eq!(token, b"t0ken".to_vec()),
        _ => panic!("expected the flow to finish"),
    }
    assert!(matches!(action, AuthAction::PersistToken));
}

#[test]
fn dismissing_the_prompt_keeps_waiting() {
    let (state, action) =
        auth_step(AuthState::AwaitingRedirect, 120, AuthEvent::PromptDismissed);
    assert!(matches!(state, AuthState::AwaitingRedirect));
    assert!(matches!(action, AuthAction::Ignore));
}

#[test]
fn acting_on_the_prompt_opens_the_url() {
    let (state, action) = auth_step(AuthState::AwaitingRedirect, 120, AuthEvent::PromptActed);
    assert!(matches!(state, AuthState::AwaitingRedirect));
    assert!(matches!(action, AuthAction::OpenUrl));
}

#[test]
fn failed_exchange_is_a_transport_error() {
    let (state, _) = auth_step(AuthState::Exchanging, 120, AuthEvent::ExchangeFailed);
    assert!(matches!(state, AuthState::Failed { error: AuthError::TransportError }));
}

#[test]
fn denied_redirect_fails_with_denied() {
    let (state, _) = auth_step(AuthState::AwaitingRedirect, 120, AuthEvent::RedirectDenied);
    assert!(matches!(state, AuthState::Failed { error: AuthError::Denied }));
}

#[test]
fn authorization_url_lists_client_id_scopes_and_force_flag() {
    let req = AuthorizationRequest {
        client_id: b"f912851b98b2884f77de".to_vec(),
        scopes: vec![b"notifications".to_vec()],
        force_reapprove: true,
        timeout_secs: 120,
    };
    let url = build_authorization_url(&req);
    assert_eq!(
        url,
        b"https://github.com/login/oauth/authorize?client_id=f912851b98b2884f77de&scope=notifications&force=true".to_vec()
    );
}

#[test]
fn authorization_url_joins_scopes_with_commas() {
    let req = AuthorizationRequest {
        client_id: b"id".to_vec(),
        scopes: vec![b"a".to_vec(), b"b".to_vec()],
        force_reapprove: false,
        timeout_secs: 1,
    };
    let url = build_authorization_url(&req);
    assert_eq!(
        url,
        b"https://github.com/login/oauth/authorize?client_id=id&scope=a,b".to_vec()
    );
}

#[test]
fn prompt_replies_open_close_or_do_nothing() {
    assert_eq!(classify_action(&b"default".to_vec()), PromptReply::OpenLink);
    assert_eq!(classify_action(&b"clicked".to_vec()), PromptReply::OpenLink);
    assert_eq!(classify_action(&b"__closed".to_vec()), PromptReply::Closed);
    assert_eq!(classify_action(&b"anything".to_vec()), PromptReply::Ignored);
}

#[test]
fn api_links_are_rewritten_to_web_links() {
    let api = b"https://api.github.com/repos/owner/repo/pulls/42".to_vec();
    assert_eq!(
        rewrite_web_url(&api),
        b"https://github.com/owner/repo/pull/42".to_vec()
    );
    let issue = b"https://api.github.com/repos/owner/repo/issues/7".to_vec();
    assert_eq!(
        rewrite_web_url(&issue),
        b"https://github.com/owner/repo/issues/7".to_vec()
    );
}

#[test]
fn presentation_formats_summary_body_and_link() {
    let n = notif("1", "T1", "Fix bug");
    let p = plan_presentation(&n);
    assert_eq!(p.summary, b"Issue - r".to_vec());
    assert_eq!(p.body, b"Fix bug".to_vec());
    assert_eq!(p.url, b"https://github.com/o/r/issues/1".to_vec());
}

#[test]
fn state_paths_live_under_the_config_directory() {
    assert_eq!(get_config_path(), ".gh-notify/config");
    assert_eq!(get_notifications_path(), ".gh-notify/prev_notifications.json");
}

#[test]
fn json_field_reads_the_named_string_value() {
    let body = b"{\"access_token\":\"t0ken\",\"scope\":\"notifications\"}".to_vec();
    assert_eq!(
        json_field(&body, &b"access_token".to_vec()),
        Some(b"t0ken".to_vec())
    );
    assert_eq!(
        json_field(&body, &b"scope".to_vec()),
        Some(b"notifications".to_vec())
    );
    assert_eq!(json_field(&body, &b"missing".to_vec()), None);
}

#[test]
fn json_field_decodes_escapes_and_refuses_unterminated_values() {
    let body = b"{\"title\":\"a \\\" quote, a \\\\ backslash, a \\/ slash\"}".to_vec();
    assert_eq!(
        json_field(&body, &b"title".to_vec()),
        Some(b"a \" quote, a \\ backslash, a / slash".to_vec())
    );
    let cut = b"{\"title\":\"never closes".to_vec();
    assert_eq!(json_field(&cut, &b"title".to_vec()), None);
}

#[test]
fn split_objects_respects_strings_and_nesting() {
    let body = b"[{\"a\":\"}{\"},{\"b\":{\"c\":1}}]".to_vec();
    let objects = split_objects(&body);
    assert_eq!(objects.len(), 2);
    assert_eq!(objects[0], b"{\"a\":\"}{\"}".to_vec());
    assert_eq!(objects[1], b"{\"b\":{\"c\":1}}".to_vec());
    assert_eq!(split_objects(&b"[]".to_vec()).len(), 0);
}

#[test]
fn query_param_reads_up_to_the_next_delimiter() {
    let request = b"GET /?code=c0de&state=x HTTP/1.1\r\n".to_vec();
    assert_eq!(query_param(&request, &b"code=".to_vec()), Some(b"c0de".to_vec()));
    assert_eq!(query_param(&request, &b"state=".to_vec()), Some(b"x".to_vec()));
    assert_eq!(query_param(&request, &b"token=".to_vec()), None);
}

#[test]
fn contains_marker_finds_text_anywhere() {
    let request = b"GET /?error=access_denied HTTP/1.1".to_vec();
    assert!(contains_marker(&request, &b"error=access_denied".to_vec()));
    assert!(!contains_marker(&request, &b"code=".to_vec()));
}

#[test]
fn parse_u64_reads_digit_runs_and_nothing_else() {
    assert_eq!(parse_u64(&b"60".to_vec()), Some(60));
    assert_eq!(parse_u64(&b"0".to_vec()), Some(0));
    assert_eq!(parse_u64(&b"9999999999999999999".to_vec()), Some(9_999_999_999_999_999_999));
    assert_eq!(parse_u64(&b"".to_vec()), None);
    assert_eq!(parse_u64(&b"12x".to_vec()), None);
    assert_eq!(parse_u64(&b"-3".to_vec()), None);
    assert_eq!(parse_u64(&b"12345678901234567890".to_vec()), None);
}
