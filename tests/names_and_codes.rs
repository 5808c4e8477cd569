use iceoryx2_core::c_api::{
    iox2_callback_progression_e, iox2_semantic_string_error_e, CallbackProgression, IOX2_OK,
};
use iceoryx2_core::monitoring::{
    Builder, Configuration, DirectoryEntry, DirectoryOpenError, DirectoryReadError,
    FileAccessError, FileLockMonitoring, FileRemoveError, MonitoringCreateMonitorError,
    MonitoringCreateTokenError, MonitoringStateError, NamedConceptDoesExistError,
    NamedConceptListError, NamedConceptRemoveError, ProcessGuardCreateError,
    ProcessMonitorCreateError, ProcessMonitorStateError, ProcessState, State,
};
use iceoryx2_core::named_concept::{FileName, Path, SemanticStringError};
use iceoryx2_core::port_identifiers::{UniqueClientId, UniqueServerId};
use iceoryx2_core::request_response::{RequestHeader, ResponseHeader};

fn name(s: &str) -> FileName {
    FileName::new(s.as_bytes()).unwrap()
}

#[test]
fn headers_return_their_port_ids() {
    let h = RequestHeader::new(UniqueClientId::new(42));
    assert_eq!(h.client_port_id(), UniqueClientId::new(42));
    let r = ResponseHeader::new(UniqueServerId::new(7));
    assert_eq!(r.server_port_id().value, 7);
}

#[test]
fn file_name_rules() {
    assert!(FileName::new(b"abc").is_ok());
    assert_eq!(FileName::new(b"").unwrap_err(), SemanticStringError::InvalidContent);
    assert_eq!(FileName::new(b".").unwrap_err(), SemanticStringError::InvalidContent);
    assert_eq!(FileName::new(b"..").unwrap_err(), SemanticStringError::InvalidContent);
    assert!(FileName::new(b"...").is_ok());
    assert_eq!(FileName::new(b"a/b").unwrap_err(), SemanticStringError::InvalidContent);
    assert_eq!(FileName::new(&[97, 0]).unwrap_err(), SemanticStringError::InvalidContent);
    assert!(FileName::new(&[97u8; 255]).is_ok());
    assert_eq!(
        FileName::new(&[97u8; 256]).unwrap_err(),
        SemanticStringError::ExceedsMaximumLength
    );
    assert!(Path::new(b"/tmp/x").is_ok());
    assert_eq!(Path::new(&[47, 0]).unwrap_err(), SemanticStringError::InvalidContent);
}

#[test]
fn configuration_defaults_and_setters() {
    let cfg = Configuration::default();
    assert_eq!(cfg.get_prefix().as_bytes(), b"iox2_");
    assert_eq!(cfg.get_suffix().as_bytes(), b".monitor");
    assert_eq!(cfg.get_path_hint().as_bytes(), b"/tmp");
    let cfg = cfg
        .prefix(name("p_"))
        .suffix(name(".s"))
        .path_hint(Path::new(b"/run/").unwrap());
    assert_eq!(cfg.get_prefix().as_bytes(), b"p_");
    assert_eq!(cfg.get_suffix().as_bytes(), b".s");
    assert_eq!(cfg.path_for(&name("node")), b"/run/p_node.s".to_vec());
    assert_eq!(Configuration::default().path_for(&name("n")), b"/tmp/iox2_n.monitor".to_vec());
}

#[test]
fn names_are_extracted_from_framed_files() {
    let cfg = Configuration::default();
    assert_eq!(
        cfg.extract_name_from_file(&name("iox2_abc.monitor")).unwrap().as_bytes(),
        b"abc"
    );
    assert!(cfg.extract_name_from_file(&name("iox2_.monitor")).is_none());
    assert!(cfg.extract_name_from_file(&name("iox2_abc.other")).is_none());
    assert!(cfg.extract_name_from_file(&name("x_abc.monitor")).is_none());
    assert!(cfg.extract_name_from_file(&name("iox2_..monitor")).is_none());
}

#[test]
fn listing_keeps_framed_regular_files() {
    let cfg = Configuration::default();
    let entries = vec![
        DirectoryEntry { name: name("iox2_a.monitor"), is_file: true },
        DirectoryEntry { name: name("iox2_b.monitor"), is_file: false },
        DirectoryEntry { name: name("other"), is_file: true },
        DirectoryEntry { name: name("iox2_c.monitor"), is_file: true },
    ];
    let names = FileLockMonitoring::list_cfg(&cfg, Ok(Ok(entries))).unwrap();
    let names: Vec<&[u8]> = names.iter().map(|n| n.as_bytes()).collect();
    assert_eq!(names, vec![b"a" as &[u8], b"c"]);
}

#[test]
fn listing_errors() {
    let cfg = Configuration::default();
    assert_eq!(
        FileLockMonitoring::list_cfg(&cfg, Err(DirectoryOpenError::DoesNotExist)).unwrap().len(),
        0
    );
    assert_eq!(
        FileLockMonitoring::list_cfg(&cfg, Err(DirectoryOpenError::InsufficientPermissions))
            .unwrap_err(),
        NamedConceptListError::InsufficientPermissions
    );
    assert_eq!(
        FileLockMonitoring::list_cfg(&cfg, Err(DirectoryOpenError::Other)).unwrap_err(),
        NamedConceptListError::InternalError
    );
    assert_eq!(
        FileLockMonitoring::list_cfg(&cfg, Ok(Err(DirectoryReadError::InsufficientPermissions)))
            .unwrap_err(),
        NamedConceptListError::InsufficientPermissions
    );
    assert_eq!(
        FileLockMonitoring::list_cfg(&cfg, Ok(Err(DirectoryReadError::Other))).unwrap_err(),
        NamedConceptListError::InternalError
    );
}

#[test]
fn exists_and_remove_results() {
    let cfg = Configuration::default();
    let n = name("n");
    assert_eq!(FileLockMonitoring::does_exist_cfg(&n, &cfg, Ok(true)), Ok(true));
    assert_eq!(
        FileLockMonitoring::does_exist_cfg(&n, &cfg, Err(FileAccessError::Other)),
        Err(NamedConceptDoesExistError::InternalError)
    );
    assert_eq!(FileLockMonitoring::remove_cfg(&n, &cfg, Ok(false)), Ok(false));
    assert_eq!(
        FileLockMonitoring::remove_cfg(&n, &cfg, Err(FileRemoveError::InsufficientPermissions)),
        Err(NamedConceptRemoveError::InsufficientPermissions)
    );
    assert_eq!(
        FileLockMonitoring::remove_cfg(&n, &cfg, Err(FileRemoveError::Other)),
        Err(NamedConceptRemoveError::InternalError)
    );
}

#[test]
fn monitor_states() {
    let m = Builder::new(&name("n")).monitor(Ok(())).unwrap();
    assert_eq!(m.state(Ok(ProcessState::Alive)), Ok(State::Alive));
    assert_eq!(m.state(Ok(ProcessState::Dead)), Ok(State::Dead));
    assert_eq!(m.state(Ok(ProcessState::DoesNotExist)), Ok(State::DoesNotExist));
    assert_eq!(m.state(Ok(ProcessState::InInitialization)), Ok(State::DoesNotExist));
    assert_eq!(
        m.state(Err(ProcessMonitorStateError::Interrupt)),
        Err(MonitoringStateError::Interrupt)
    );
    assert_eq!(
        m.state(Err(ProcessMonitorStateError::Other)),
        Err(MonitoringStateError::InternalError)
    );
}

#[test]
fn token_and_monitor_creation() {
    let b = || Builder::new(&name("n"));
    assert_eq!(b().create(Ok(())).unwrap().name().as_bytes(), b"n");
    assert_eq!(
        b().create(Err(ProcessGuardCreateError::AlreadyExists)).unwrap_err(),
        MonitoringCreateTokenError::AlreadyExists
    );
    assert_eq!(
        b().create(Err(ProcessGuardCreateError::InsufficientPermissions)).unwrap_err(),
        MonitoringCreateTokenError::InsufficientPermissions
    );
    assert_eq!(
        b().create(Err(ProcessGuardCreateError::Other)).unwrap_err(),
        MonitoringCreateTokenError::InternalError
    );
    assert_eq!(
        b().monitor(Err(ProcessMonitorCreateError::Interrupt)).unwrap_err(),
        MonitoringCreateMonitorError::Interrupt
    );
    assert_eq!(
        b().monitor(Err(ProcessMonitorCreateError::InsufficientPermissions)).unwrap_err(),
        MonitoringCreateMonitorError::InsufficientPermissions
    );
    assert_eq!(
        b().monitor(Err(ProcessMonitorCreateError::Other)).unwrap_err(),
        MonitoringCreateMonitorError::InternalError
    );
    let cfg = Configuration::default().prefix(name("q_"));
    assert_eq!(b().config(&cfg).process_state_path(), b"/tmp/q_n.monitor".to_vec());
}

#[test]
fn c_codes() {
    assert_eq!(
        CallbackProgression::from(iox2_callback_progression_e::STOP),
        CallbackProgression::Stop
    );
    assert_eq!(
        CallbackProgression::from(iox2_callback_progression_e::CONTINUE),
        CallbackProgression::Continue
    );
    assert_eq!(IOX2_OK, 0);
    assert_eq!(SemanticStringError::InvalidContent.into_c_int(), 1);
    assert_eq!(SemanticStringError::ExceedsMaximumLength.into_c_int(), 2);
    assert_eq!(
        SemanticStringError::ExceedsMaximumLength.into_c_enum(),
        iox2_semantic_string_error_e::EXCEEDS_MAXIMUM_LENGTH
    );
    assert_eq!(iox2_semantic_string_error_e::INVALID_CONTENT.as_c_int(), 1);
}
