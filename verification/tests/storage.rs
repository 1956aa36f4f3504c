use retrosync::storage::emulators::SyncCategories;
use retrosync::storage::manifest::ManifestEntry;
use retrosync::storage::queue::{pending_from_rows, OpDirection, PendingRow};
use retrosync::storage::settings::{
    autostart_initialized_from_setting, flag_from_setting, flag_to_setting, level_from_setting,
    triggers_from_settings, NotificationLevel, Settings, TriggerSettings,
};
use retrosync::sync::conflict::{decide, SyncAction};
use retrosync::sync::SyncCategory;

#[test]
fn notification_level_gating() {
    assert!(NotificationLevel::All.notifies_errors());
    assert!(NotificationLevel::All.notifies_info());
    assert!(NotificationLevel::ErrorsOnly.notifies_errors());
    assert!(!NotificationLevel::ErrorsOnly.notifies_info());
    assert!(!NotificationLevel::Silent.notifies_errors());
    assert!(!NotificationLevel::Silent.notifies_info());
}

#[test]
fn nivel_de_notificacao_faz_roundtrip_pelo_texto() {
    for level in [NotificationLevel::All, NotificationLevel::ErrorsOnly, NotificationLevel::Silent] {
        assert_eq!(NotificationLevel::parse(level.as_str()), Some(level));
    }
    assert_eq!(NotificationLevel::ErrorsOnly.as_str(), "errors_only");
    assert_eq!(NotificationLevel::parse("barulho"), None);
    assert_eq!(level_from_setting(None), NotificationLevel::All);
    assert_eq!(level_from_setting(Some("none")), NotificationLevel::Silent);
    assert_eq!(level_from_setting(Some("???")), NotificationLevel::All);
}

#[test]
fn defaults_das_configuracoes() {
    let s = Settings::default();
    assert_eq!(s.device_name, None);
    assert_eq!(s.triggers, TriggerSettings { startup: true, emulator_start: true, emulator_stop: true });
    assert_eq!(s.notification_level, NotificationLevel::All);
    assert!(!s.autostart);
}

#[test]
fn flags_gravados_como_texto() {
    assert_eq!(flag_to_setting(true), "true");
    assert_eq!(flag_to_setting(false), "false");
    assert!(flag_from_setting(Some("true"), false));
    assert!(!flag_from_setting(Some("false"), true));
    assert!(flag_from_setting(None, true));
    let t = triggers_from_settings(Some("false"), None, Some("true"));
    assert_eq!(t, TriggerSettings { startup: false, emulator_start: true, emulator_stop: true });
    assert!(!autostart_initialized_from_setting(None));
    assert!(autostart_initialized_from_setting(Some("true")));
}

#[test]
fn categorias_default_e_linha_do_banco() {
    assert_eq!(
        SyncCategories::or_default(None),
        SyncCategories { saves: true, savestates: true, config: true }
    );
    let c = SyncCategories { saves: true, savestates: false, config: true };
    assert_eq!(c.to_row(), (1, 0, 1));
    let (a, b, d) = c.to_row();
    assert_eq!(SyncCategories::from_row(a, b, d), c);
}

#[test]
fn direcao_da_fila_em_texto() {
    assert_eq!(OpDirection::Upload.as_str(), "upload");
    assert_eq!(OpDirection::Download.as_str(), "download");
}

#[test]
fn linhas_da_fila_com_categoria_desconhecida_sao_descartadas() {
    let rows = vec![
        PendingRow {
            emulator: "PPSSPP".into(),
            category: "savestates".into(),
            rel_path: "GAME01/state0.bin".into(),
            direction: "download".into(),
            enqueued_at_ms: 1_700_000_000_000,
            attempts: 2,
            last_error: Some("rede".into()),
        },
        PendingRow {
            emulator: "PPSSPP".into(),
            category: "lixo".into(),
            rel_path: "x".into(),
            direction: "upload".into(),
            enqueued_at_ms: 1,
            attempts: 1,
            last_error: None,
        },
    ];
    let ops = pending_from_rows(rows);
    assert_eq!(ops.len(), 1);
    assert_eq!(ops[0].category, SyncCategory::Savestates);
    assert_eq!(ops[0].rel_path, "GAME01/state0.bin");
    assert_eq!(ops[0].attempts, 2);
}

#[test]
fn entrada_registrada_apos_transferencia_estabiliza_o_proximo_sync() {
    let e = ManifestEntry::synced(
        "PPSSPP",
        SyncCategory::Saves,
        "SAVE.bin",
        "id-1".to_string(),
        1_700_000_060_000,
        Some(1_700_000_060_000),
        100,
        1_700_000_070_000,
    );
    assert_eq!(e.synced_pair(), Some((1_700_000_060_000, 1_700_000_060_000)));
    assert_eq!(
        decide(Some(1_700_000_060_000), Some(1_700_000_060_000), e.synced_pair()),
        SyncAction::NoOp
    );
    assert_eq!(e.drive_file_id.as_deref(), Some("id-1"));
}
