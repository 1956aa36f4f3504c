use retrosync::commands::{accept_device_name, health_check, refuse_existing, require_detected, validate_device_name};
use retrosync::emulator::EmulatorProfile;
use retrosync::constants::{APP_VERSION, TRIGGER_MANUAL, TRIGGER_SHUTDOWN};
use retrosync::error::AppError;
use retrosync::launch::{
    hides_on_close, launched_minimized, should_enable_autostart, startup_sync_enabled, tray_action,
    TrayAction,
};
use retrosync::storage::settings::TriggerSettings;

#[test]
fn health_check_responde_pronto() {
    let h = health_check().unwrap();
    assert!(h.ready);
    assert_eq!(h.version, APP_VERSION);
}

#[test]
fn nome_do_dispositivo_e_aparado_e_nao_pode_ser_vazio() {
    assert_eq!(validate_device_name("  PC Gamer \n"), Ok("PC Gamer".to_string()));
    assert_eq!(
        validate_device_name("   "),
        Err(AppError::Other("o nome do dispositivo não pode ser vazio".into()))
    );
    assert_eq!(accept_device_name("Notebook".into()), Ok("Notebook".to_string()));
    assert!(accept_device_name(String::new()).is_err());
}

#[test]
fn inicia_minimizado_com_a_flag() {
    assert!(launched_minimized(&vec!["retrosync".into(), "--minimized".into()]));
    assert!(!launched_minimized(&vec!["retrosync".into()]));
    assert!(hides_on_close("main"));
    assert!(!hides_on_close("other"));
}

#[test]
fn menu_da_bandeja() {
    assert_eq!(tray_action("tray-open"), Some(TrayAction::ShowWindow));
    assert_eq!(
        tray_action("tray-sync"),
        Some(TrayAction::Sync { trigger: TRIGGER_MANUAL, then_exit: false })
    );
    assert_eq!(
        tray_action("tray-quit"),
        Some(TrayAction::Sync { trigger: TRIGGER_SHUTDOWN, then_exit: true })
    );
    assert_eq!(tray_action("outro"), None);
}

#[test]
fn gatilhos_de_inicializacao() {
    assert!(startup_sync_enabled(None));
    assert!(!startup_sync_enabled(Some(TriggerSettings { startup: false, emulator_start: true, emulator_stop: true })));
    assert!(should_enable_autostart(Some(false)));
    assert!(!should_enable_autostart(Some(true)));
    assert!(!should_enable_autostart(None));
}

#[test]
fn mensagens_e_codigos_de_erro() {
    let e = AppError::Network("timeout".into());
    assert_eq!(e.code(), "network");
    assert_eq!(e.detail(), "timeout");
    assert!(e.message().ends_with("timeout"));
    assert!(e.is_retryable());
    assert!(AppError::FileBusy("a".into()).is_retryable());
    assert!(!AppError::Auth("x".into()).is_retryable());
    assert_eq!(AppError::Other("só isso".into()).message(), "só isso");
}

fn profile(name: &str) -> EmulatorProfile {
    EmulatorProfile {
        name: name.into(),
        root_path: "/emu".into(),
        saves_paths: vec![],
        config_paths: vec![],
        state_paths: vec![],
    }
}

#[test]
fn pasta_sem_emulador_e_recusada_com_o_caminho() {
    assert_eq!(
        require_detected("/x", None),
        Err(AppError::EmulatorNotDetected("/x".into()))
    );
    assert_eq!(require_detected("/x", Some(profile("PCSX2"))), Ok(profile("PCSX2")));
}

#[test]
fn emulador_manual_nao_substitui_existente() {
    assert_eq!(
        refuse_existing(profile("PPSSPP"), true),
        Err(AppError::EmulatorExists("PPSSPP".into()))
    );
    assert_eq!(refuse_existing(profile("PPSSPP"), false), Ok(profile("PPSSPP")));
}

#[test]
fn nome_do_dispositivo_perde_espaco_unicode_nas_pontas() {
    assert_eq!(
        validate_device_name("\u{3000}\u{a0}Sala\u{2003}TV\t\u{85}"),
        Ok("Sala\u{2003}TV".to_string())
    );
}
