use e_agent::broker::{BrokerError, BrokerState, NOTIFICATION_CAPACITY, UiDiagnostic};
use e_agent::ui_protocol::{
    DialogRequest, ExtensionId, Generation, Notification, NotificationLevel, OverlayAction,
    OverlayId, RequestId, UiCapabilities, UiEnvelope, UiOperation, UiOperationKind,
    UiProtocolVersion, UiReply, native_capabilities,
};

fn ext() -> ExtensionId {
    ExtensionId("test".into())
}

fn confirm() -> UiOperation {
    UiOperation::Dialog(DialogRequest::Confirm { title: "x".into(), message: "y".into() })
}

fn input_dialog() -> UiOperation {
    UiOperation::Dialog(DialogRequest::Input { title: "x".into(), placeholder: "".into() })
}

fn envelope(request: RequestId, generation: Generation, operation: UiOperation) -> UiEnvelope {
    UiEnvelope {
        version: UiProtocolVersion::current(),
        extension: ext(),
        request,
        generation,
        deadline: None,
        operation,
    }
}

#[test]
fn notification_overflow_and_slow_raw_input_are_bounded_and_diagnosed_once() {
    let mut broker = BrokerState::new();
    for index in 0..40 {
        broker.notify(
            ext(),
            Notification { message: index.to_string(), level: NotificationLevel::Info },
        );
    }
    let mut count = 0;
    let mut first = None;
    while let Some((_, notification)) = broker.take_notification() {
        if first.is_none() {
            first = Some(notification.message.clone());
        }
        count += 1;
    }
    assert_eq!(count, NOTIFICATION_CAPACITY);
    assert_eq!(first.as_deref(), Some("8"));
    assert_eq!(broker.take_diagnostic(), Some(UiDiagnostic::NotificationsOverflowed));
    assert_eq!(broker.take_diagnostic(), None);
    broker.report_disabled_subscriber(7);
    assert_eq!(broker.take_diagnostic(), Some(UiDiagnostic::RawInputSubscriberDisabled(7)));
}

#[test]
fn overflow_keeps_errors_before_other_notifications() {
    let mut broker = BrokerState::new();
    broker.notify(ext(), Notification { message: "bad".into(), level: NotificationLevel::Error });
    for index in 0..NOTIFICATION_CAPACITY {
        broker.notify(
            ext(),
            Notification { message: index.to_string(), level: NotificationLevel::Info },
        );
    }
    let (_, first) = broker.take_notification().unwrap();
    assert_eq!(first.message, "bad");
    let (_, second) = broker.take_notification().unwrap();
    assert_eq!(second.message, "1");
}

#[test]
fn modal_dialogs_are_serialized_per_extension() {
    let mut broker = BrokerState::new();
    let (first, generation, superseded) = broker.begin(ext(), &confirm()).unwrap();
    assert_eq!(first, RequestId(0));
    assert_eq!(generation, Generation(0));
    assert!(superseded.is_empty());
    assert_eq!(broker.begin(ext(), &input_dialog()), Err(BrokerError::Busy));
    let (other, _, _) = broker.begin(ExtensionId("other".into()), &input_dialog()).unwrap();
    assert_eq!(other, RequestId(1));
    assert!(broker.complete(first));
    assert!(!broker.complete(first));
    assert!(broker.begin(ext(), &input_dialog()).is_ok());
}

#[test]
fn coalescing_supersedes_the_older_request_of_a_key() {
    let mut broker = BrokerState::new();
    let render = |content: &str| UiOperation::Render { key: "row".into(), content: content.into() };
    let (old, _, superseded) = broker.begin(ext(), &render("old")).unwrap();
    assert!(superseded.is_empty());
    let (new, _, superseded) = broker.begin(ext(), &render("new")).unwrap();
    assert_eq!(superseded, vec![old]);
    assert!(!broker.complete(old));
    assert!(broker.complete(new));
}

#[test]
fn unloading_an_extension_settles_its_requests() {
    let mut broker = BrokerState::new();
    let (request, _, _) = broker.begin(ext(), &input_dialog()).unwrap();
    let (kept, _, _) = broker.begin(ExtensionId("other".into()), &confirm()).unwrap();
    assert_eq!(broker.cancel_extension(&ext()), vec![request]);
    assert!(!broker.complete(request));
    assert!(broker.complete(kept));
}

#[test]
fn closing_refuses_new_requests_and_settles_pending_ones() {
    let mut broker = BrokerState::new();
    let (request, _, _) = broker.begin(ext(), &confirm()).unwrap();
    assert_eq!(broker.close(), vec![request]);
    assert!(broker.is_closed());
    assert_eq!(broker.begin(ext(), &confirm()), Err(BrokerError::Closed));
}

#[test]
fn input_poll_answers_the_most_recent_live_request() {
    let mut broker = BrokerState::new();
    let operation = UiOperation::TerminalInput { subscription: 7, enabled: true };
    let (first, _, _) = broker.begin(ext(), &operation).unwrap();
    let (second, _, _) = broker.begin(ExtensionId("b".into()), &operation).unwrap();
    assert!(broker.queue_input_poll(first));
    assert!(broker.queue_input_poll(second));
    assert!(!broker.queue_input_poll(RequestId(99)));
    assert_eq!(broker.take_input_poll(), Some(second));
    assert!(broker.complete(first));
    assert_eq!(broker.take_input_poll(), None);
}

#[test]
fn stale_generation_is_rejected() {
    let mut broker = BrokerState::new();
    let capabilities = native_capabilities();
    let operation = UiOperation::Overlay {
        id: OverlayId(1),
        generation: Generation(0),
        action: OverlayAction::SetHidden(false),
    };
    let (request, generation, _) = broker.begin(ext(), &operation).unwrap();
    let e = envelope(request, generation, operation);
    assert_eq!(broker.default_reply(&capabilities, &e), UiReply::Ack);
    broker.invalidate_handles();
    assert_eq!(broker.generation(), Generation(1));
    assert_eq!(broker.default_reply(&capabilities, &e), UiReply::StaleHandle);
}

#[test]
fn unsupported_version_capabilities_and_operations_are_typed() {
    let broker = BrokerState::new();
    let capabilities = UiCapabilities::default();
    let notify = UiOperation::Notify(Notification {
        message: "x".into(),
        level: NotificationLevel::Info,
    });
    let mut e = envelope(RequestId(0), Generation(0), notify);
    assert!(matches!(
        broker.default_reply(&capabilities, &e),
        UiReply::Unsupported { operation: UiOperationKind::Notification, .. }
    ));
    e.version.major += 1;
    assert_eq!(
        broker.default_reply(&capabilities, &e),
        UiReply::Failed("unsupported UI protocol major 2".into())
    );
    e.version = UiProtocolVersion::current();
    e.operation = UiOperation::Unknown("future".into());
    assert_eq!(
        broker.default_reply(&capabilities, &e),
        UiReply::Unsupported {
            operation: UiOperationKind::Unknown,
            reason: "unknown operation".into()
        }
    );
}
