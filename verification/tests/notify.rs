use zaz::config::user::NotificationConfig;
use zaz::daemon::notify::{notification, NotifyEvent};

#[test]
fn test_notify_event_constructors() {
    let event = NotifyEvent::task_success("build", "backend", 1500);
    match event {
        NotifyEvent::TaskSuccess {
            task,
            group,
            duration_ms,
        } => {
            assert_eq!(task, "build");
            assert_eq!(group, "backend");
            assert_eq!(duration_ms, 1500);
        }
        _ => panic!("wrong variant"),
    }

    let event = NotifyEvent::task_failed("test", "backend", Some(1));
    match event {
        NotifyEvent::TaskFailed {
            task,
            group,
            exit_code,
        } => {
            assert_eq!(task, "test");
            assert_eq!(group, "backend");
            assert_eq!(exit_code, Some(1));
        }
        _ => panic!("wrong variant"),
    }
}

#[test]
fn test_notifications_disabled() {
    let config = NotificationConfig::default(); // enabled = false by default
    let event = NotifyEvent::task_success("test", "group", 100);
    assert_eq!(notification(&config, &event, "0.1"), None);
}

#[test]
fn test_on_failure_disabled() {
    let config = NotificationConfig {
        enabled: true,
        on_failure: false,
        on_success: true,
        on_group_complete: true,
    };
    // This should not send (on_failure is false)
    let event = NotifyEvent::task_failed("test", "group", Some(1));
    assert_eq!(notification(&config, &event, ""), None);
    let event = NotifyEvent::group_failed("group");
    assert_eq!(notification(&config, &event, ""), None);
}

#[test]
fn test_on_success_disabled() {
    let config = NotificationConfig {
        enabled: true,
        on_failure: true,
        on_success: false, // This is the default
        on_group_complete: true,
    };
    // This should not send (on_success is false)
    let event = NotifyEvent::task_success("test", "group", 100);
    assert_eq!(notification(&config, &event, "0.1"), None);
}

#[test]
fn notifications_have_a_title_and_a_body() {
    let config = NotificationConfig {
        enabled: true,
        on_failure: true,
        on_success: true,
        on_group_complete: true,
    };
    let said = |event: NotifyEvent, seconds: &str| notification(&config, &event, seconds).unwrap();
    assert_eq!(
        said(NotifyEvent::task_failed("lint", "web", Some(-2)), ""),
        (
            "zaz: lint failed".to_string(),
            "Task lint in web failed with exit code -2".to_string()
        )
    );
    assert_eq!(
        said(NotifyEvent::task_failed("lint", "web", None), "").1,
        "Task lint in web failed"
    );
    assert_eq!(
        said(NotifyEvent::task_success("lint", "web", 1500), "1.5"),
        (
            "zaz: lint complete".to_string(),
            "Task lint in web completed in 1.5s".to_string()
        )
    );
    assert_eq!(
        said(NotifyEvent::group_complete("web"), ""),
        ("zaz: Ready".to_string(), "Group web is ready".to_string())
    );
    assert_eq!(
        said(NotifyEvent::group_failed("web"), ""),
        (
            "zaz: Group Failed".to_string(),
            "Group web has failed tasks".to_string()
        )
    );
}
