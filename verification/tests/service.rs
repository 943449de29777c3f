use octobuild::service::{
    client_greeting, dedup_toolchains, service_step, shutdown_steps, ServiceAction, ServiceState,
    ShutdownStep, Signal, ANNOUNCE_PERIOD_SECS,
};

#[test]
fn start_from_stopped_starts() {
    assert_eq!(
        service_step(ServiceState::Stopped, Signal::Start),
        (ServiceState::Ready, ServiceAction::StartService)
    );
}

#[test]
fn start_from_ready_replaces() {
    assert_eq!(
        service_step(ServiceState::Ready, Signal::Start),
        (ServiceState::Ready, ServiceAction::ReplaceService)
    );
}

#[test]
fn reload_keeps_ready_service() {
    assert_eq!(
        service_step(ServiceState::Ready, Signal::Reload),
        (ServiceState::Ready, ServiceAction::ReloadToolchains)
    );
    assert_eq!(
        service_step(ServiceState::Stopped, Signal::Reload),
        (ServiceState::Stopped, ServiceAction::Stay)
    );
}

#[test]
fn stop_shuts_down_once() {
    assert_eq!(
        service_step(ServiceState::Ready, Signal::Stop),
        (ServiceState::Stopped, ServiceAction::StopService)
    );
    assert_eq!(
        service_step(ServiceState::Stopped, Signal::Stop),
        (ServiceState::Stopped, ServiceAction::Stay)
    );
}

#[test]
fn shutdown_order() {
    assert_eq!(
        shutdown_steps(),
        vec![
            ShutdownStep::SetDoneFlag,
            ShutdownStep::CloseListener,
            ShutdownStep::JoinAnnouncer,
            ShutdownStep::JoinAccepter,
        ]
    );
}

#[test]
fn announcement_period() {
    assert_eq!(ANNOUNCE_PERIOD_SECS, 1);
}

#[test]
fn toolchain_identifiers_are_unique() {
    let ids = vec![
        "msvc-19".to_string(),
        "clang-17".to_string(),
        "msvc-19".to_string(),
    ];
    let r = dedup_toolchains(&ids);
    assert_eq!(r.len(), 2);
    assert!(r.contains(&"msvc-19".to_string()));
    assert!(r.contains(&"clang-17".to_string()));
}

#[test]
fn dedup_keeps_nothing_extra() {
    let ids: Vec<String> = Vec::new();
    assert_eq!(dedup_toolchains(&ids), Vec::<String>::new());
}

#[test]
fn greeting_bytes() {
    assert_eq!(client_greeting(), b"Hello!!!\n".to_vec());
}
