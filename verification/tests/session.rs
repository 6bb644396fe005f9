use mesh_topology::session::{
    ConfigurationStatus, DeviceSession, DeviceUpdateResult, NotificationConfig, PipelineAction,
    PipelineError, Recovery,
    SerialDeviceStatus, SessionEvent, CONFIGURATION_TIMEOUT_MS,
};

fn configuring(round: u32) -> DeviceSession {
    let mut s = DeviceSession::new(round);
    assert!(s.handle(SessionEvent::ConnectRequested));
    assert!(s.handle(SessionEvent::ConfigureRequested));
    s
}

fn update(device: bool, graph: bool, success: bool, notice: bool) -> DeviceUpdateResult {
    DeviceUpdateResult {
        device_updated: device,
        regenerate_graph: graph,
        configuration_success: success,
        notification_config: if notice {
            Some(NotificationConfig { title: "t".to_string(), body: "b".to_string() })
        } else {
            None
        },
    }
}

fn port() -> String {
    "/dev/ttyUSB0".to_string()
}

#[test]
fn deadline_is_fifteen_hundred_milliseconds() {
    assert_eq!(CONFIGURATION_TIMEOUT_MS, 1500);
}

#[test]
fn a_session_walks_through_its_states() {
    let mut s = DeviceSession::new(7);
    assert_eq!(s.status, SerialDeviceStatus::Disconnected);
    assert_eq!(s.config_id, 7);
    assert!(s.handle(SessionEvent::ConnectRequested));
    assert_eq!(s.status, SerialDeviceStatus::Connecting);
    assert!(s.handle(SessionEvent::ConfigureRequested));
    assert_eq!(s.status, SerialDeviceStatus::Configuring);
    assert!(s.handle(SessionEvent::ConfigurationComplete { config_id: 7 }));
    assert_eq!(s.status, SerialDeviceStatus::Configured);
    assert!(s.handle(SessionEvent::SuccessAnnounced));
    assert_eq!(s.status, SerialDeviceStatus::Connected);
    assert_eq!(s.config_id, 7);
}

#[test]
fn events_that_do_not_fit_change_nothing() {
    let all = [
        SessionEvent::ConnectRequested,
        SessionEvent::ConfigureRequested,
        SessionEvent::ConfigurationComplete { config_id: 1 },
        SessionEvent::SuccessAnnounced,
        SessionEvent::DeadlineFired,
    ];
    for status in [SerialDeviceStatus::Connected, SerialDeviceStatus::Failed] {
        for e in all {
            let mut s = DeviceSession { status, config_id: 1 };
            assert!(!s.handle(e));
            assert_eq!(s.status, status);
        }
    }
    let mut s = DeviceSession::new(1);
    assert!(!s.handle(SessionEvent::ConfigureRequested));
    assert!(!s.handle(SessionEvent::DeadlineFired));
    assert_eq!(s.status, SerialDeviceStatus::Disconnected);
    let mut c = configuring(1);
    assert!(!c.handle(SessionEvent::ConnectRequested));
    assert!(!c.handle(SessionEvent::SuccessAnnounced));
    assert_eq!(c.status, SerialDeviceStatus::Configuring);
}

#[test]
fn the_end_of_another_round_is_ignored() {
    let mut s = configuring(4);
    assert!(!s.handle(SessionEvent::ConfigurationComplete { config_id: 5 }));
    assert_eq!(s.status, SerialDeviceStatus::Configuring);
    assert!(s.handle(SessionEvent::ConfigurationComplete { config_id: 4 }));
    assert_eq!(s.status, SerialDeviceStatus::Configured);
}

#[test]
fn deadline_fails_a_configuring_session_once() {
    let mut s = configuring(1);
    let report = s.on_deadline(port());
    assert_eq!(
        report,
        Some(ConfigurationStatus {
            port_name: port(),
            successful: false,
            message: Some(
                "Configuration timed out. Are you sure this is a Meshtastic device?".to_string()
            ),
        })
    );
    assert_eq!(s.status, SerialDeviceStatus::Failed);
    assert_eq!(s.on_deadline(port()), None);
    assert_eq!(s.status, SerialDeviceStatus::Failed);
}

#[test]
fn deadline_is_stale_in_every_other_status() {
    for status in [
        SerialDeviceStatus::Disconnected,
        SerialDeviceStatus::Connecting,
        SerialDeviceStatus::Configured,
        SerialDeviceStatus::Connected,
        SerialDeviceStatus::Failed,
    ] {
        let mut s = DeviceSession { status, config_id: 0 };
        assert_eq!(s.on_deadline(port()), None);
        assert_eq!(s.status, status);
    }
}

#[test]
fn success_before_deadline() {
    let mut s = configuring(3);
    assert!(s.handle(SessionEvent::ConfigurationComplete { config_id: 3 }));
    let plan = s.plan_event(port(), update(false, false, true, false));
    assert_eq!(
        plan,
        vec![PipelineAction::DispatchConfigurationStatus(ConfigurationStatus {
            port_name: port(),
            successful: true,
            message: None,
        })]
    );
    assert_eq!(s.status, SerialDeviceStatus::Connected);
    assert_eq!(s.on_deadline(port()), None);
    assert_eq!(s.status, SerialDeviceStatus::Connected);
    assert!(s.plan_event(port(), update(false, false, true, false)).is_empty());
}

#[test]
fn deadline_between_completion_and_announcement() {
    let mut s = configuring(3);
    assert!(s.handle(SessionEvent::ConfigurationComplete { config_id: 3 }));
    assert_eq!(s.on_deadline(port()), None);
    assert_eq!(s.status, SerialDeviceStatus::Configured);
    let plan = s.plan_event(port(), update(false, false, true, false));
    assert_eq!(plan.len(), 1);
    assert_eq!(s.status, SerialDeviceStatus::Connected);
}

#[test]
fn deadline_before_success() {
    let mut s = configuring(3);
    assert!(s.on_deadline(port()).is_some());
    assert!(!s.handle(SessionEvent::ConfigurationComplete { config_id: 3 }));
    assert_eq!(s.status, SerialDeviceStatus::Failed);
    let plan = s.plan_event(port(), update(true, false, true, false));
    assert_eq!(plan, vec![PipelineAction::DispatchDevice]);
    assert_eq!(s.status, SerialDeviceStatus::Failed);
    assert!(!s.handle(SessionEvent::SuccessAnnounced));
    assert_eq!(s.on_deadline(port()), None);
    assert_eq!(s.status, SerialDeviceStatus::Failed);
}

#[test]
fn a_plan_keeps_its_order() {
    let mut s = DeviceSession { status: SerialDeviceStatus::Configured, config_id: 0 };
    let plan = s.plan_event(port(), update(true, true, true, true));
    assert_eq!(
        plan,
        vec![
            PipelineAction::RegenerateGraph,
            PipelineAction::DispatchDevice,
            PipelineAction::DispatchGraph,
            PipelineAction::DispatchConfigurationStatus(ConfigurationStatus {
                port_name: port(),
                successful: true,
                message: None,
            }),
            PipelineAction::Notify(NotificationConfig {
                title: "t".to_string(),
                body: "b".to_string()
            }),
        ]
    );
    assert_eq!(s.status, SerialDeviceStatus::Connected);
}

#[test]
fn facets_are_independent() {
    for bits in 0..16u32 {
        let (d, g, c, n) = (bits & 1 != 0, bits & 2 != 0, bits & 4 != 0, bits & 8 != 0);
        let mut s = DeviceSession { status: SerialDeviceStatus::Connected, config_id: 0 };
        let plan = s.plan_event(port(), update(d, g, c, n));
        let count = |a: &PipelineAction| plan.iter().filter(|x| *x == a).count();
        assert_eq!(count(&PipelineAction::RegenerateGraph), g as usize);
        assert_eq!(count(&PipelineAction::DispatchGraph), g as usize);
        assert_eq!(count(&PipelineAction::DispatchDevice), d as usize);
        assert_eq!(plan.len(), d as usize + 2 * (g as usize) + n as usize);
        assert_eq!(s.status, SerialDeviceStatus::Connected);
        if g {
            assert_eq!(plan[0], PipelineAction::RegenerateGraph);
        }
    }
}

#[test]
fn success_is_announced_only_when_configured() {
    for status in [
        SerialDeviceStatus::Disconnected,
        SerialDeviceStatus::Connecting,
        SerialDeviceStatus::Configuring,
        SerialDeviceStatus::Connected,
        SerialDeviceStatus::Failed,
    ] {
        let mut s = DeviceSession { status, config_id: 0 };
        assert!(s.plan_event(port(), update(false, false, true, false)).is_empty());
        assert_eq!(s.status, status);
    }
    let mut s = DeviceSession { status: SerialDeviceStatus::Configured, config_id: 0 };
    assert!(s.plan_event(port(), update(false, false, false, false)).is_empty());
    assert_eq!(s.status, SerialDeviceStatus::Configured);
}

#[test]
fn no_failure_ends_the_loop() {
    assert_eq!(PipelineError::SessionNotFound.recovery(), Recovery::SkipEvent);
    assert_eq!(PipelineError::DispatchFailure.recovery(), Recovery::CarryOn);
    assert_eq!(PipelineError::ConnectionTimeout.recovery(), Recovery::ReportAndAbandon);
}
