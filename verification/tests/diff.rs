use retrosync::drive::{DriveFile, RemoteFile};
use retrosync::storage::manifest::ManifestEntry;
use retrosync::sync::conflict::SyncAction;
use retrosync::sync::diff::{build_plan, first_per_path, system_time_ms, LocalFile};
use retrosync::sync::{SyncCategory, SyncDirection};

const T: i64 = 1_700_000_000_000;

fn local_file(rel: &str, mtime: i64) -> LocalFile {
    LocalFile {
        rel_path: rel.to_string(),
        abs_path: format!("/tmp/{rel}"),
        mtime_ms: mtime,
        size_bytes: 100,
    }
}

fn remote_file(rel: &str, mtime: i64) -> RemoteFile {
    RemoteFile {
        rel_path: rel.to_string(),
        file: DriveFile {
            id: format!("id-{rel}"),
            name: rel.rsplit('/').next().unwrap().to_string(),
            mime_type: "application/octet-stream".into(),
            modified_time_ms: Some(mtime),
            size: Some("100".into()),
            device: None,
        },
    }
}

fn manifest_entry(rel: &str, local: i64, drive: i64) -> ManifestEntry {
    ManifestEntry {
        emulator: "PPSSPP".into(),
        category: SyncCategory::Saves,
        rel_path: rel.to_string(),
        drive_file_id: Some(format!("id-{rel}")),
        local_mtime_ms: Some(local),
        drive_mtime_ms: Some(drive),
        size_bytes: Some(100),
        last_synced_at_ms: T,
    }
}

#[test]
fn arquivo_novo_local_vira_upload() {
    let (ops, skipped) = build_plan(
        vec![local_file("novo.bin", T)],
        vec![],
        vec![],
        SyncDirection::Bidirectional,
    );
    assert_eq!(ops.len(), 1);
    assert_eq!(ops[0].action, SyncAction::Upload);
    assert_eq!(skipped, 0);
}

#[test]
fn arquivo_novo_no_drive_vira_download() {
    let (ops, _) = build_plan(
        vec![],
        vec![remote_file("remoto.bin", T)],
        vec![],
        SyncDirection::Bidirectional,
    );
    assert_eq!(ops.len(), 1);
    assert_eq!(ops[0].action, SyncAction::Download);
    assert!(ops[0].remote.is_some());
}

#[test]
fn arquivo_sem_mudanca_e_pulado() {
    let (ops, skipped) = build_plan(
        vec![local_file("igual.bin", T)],
        vec![remote_file("igual.bin", T)],
        vec![manifest_entry("igual.bin", T, T)],
        SyncDirection::Bidirectional,
    );
    assert!(ops.is_empty());
    assert_eq!(skipped, 1);
}

#[test]
fn local_mais_recente_vira_upload_com_remote_id() {
    let (ops, _) = build_plan(
        vec![local_file("save.bin", T + 60_000)],
        vec![remote_file("save.bin", T)],
        vec![manifest_entry("save.bin", T, T)],
        SyncDirection::Bidirectional,
    );
    assert_eq!(ops.len(), 1);
    assert_eq!(ops[0].action, SyncAction::Upload);
    assert_eq!(ops[0].remote.as_ref().unwrap().id, "id-save.bin");
}

#[test]
fn primeiro_sync_com_arquivo_nos_dois_lados_baixa_com_backup() {
    let (ops, skipped) = build_plan(
        vec![local_file("save.bin", T + 60_000)],
        vec![remote_file("save.bin", T)],
        vec![],
        SyncDirection::Bidirectional,
    );
    assert_eq!(ops.len(), 1);
    assert_eq!(ops[0].action, SyncAction::DownloadWithBackup);
    assert!(ops[0].local.is_some());
    assert!(ops[0].remote.is_some());
    assert_eq!(skipped, 0);
}

#[test]
fn ambos_mudaram_desde_o_ultimo_sync_vira_conflito() {
    let (ops, _) = build_plan(
        vec![local_file("save.bin", T + 300_000)],
        vec![remote_file("save.bin", T + 60_000)],
        vec![manifest_entry("save.bin", T, T)],
        SyncDirection::Bidirectional,
    );
    assert_eq!(ops.len(), 1);
    assert_eq!(ops[0].action, SyncAction::Conflict);
    assert!(ops[0].local.is_some());
    assert!(ops[0].remote.is_some());
}

#[test]
fn direcao_drive_to_local_descarta_uploads() {
    let (ops, skipped) = build_plan(
        vec![local_file("novo.bin", T)],
        vec![remote_file("remoto.bin", T)],
        vec![],
        SyncDirection::DriveToLocal,
    );
    assert_eq!(ops.len(), 1);
    assert_eq!(ops[0].action, SyncAction::Download);
    assert_eq!(skipped, 1);
}

#[test]
fn direcao_local_to_drive_descarta_downloads() {
    let (ops, skipped) = build_plan(
        vec![local_file("novo.bin", T)],
        vec![remote_file("remoto.bin", T)],
        vec![],
        SyncDirection::LocalToDrive,
    );
    assert_eq!(ops.len(), 1);
    assert_eq!(ops[0].action, SyncAction::Upload);
    assert_eq!(skipped, 1);
}

#[test]
fn plano_sai_em_ordem_de_caminho() {
    let (ops, skipped) = build_plan(
        vec![local_file("b.bin", T), local_file("a.bin", T)],
        vec![remote_file("c.bin", T)],
        vec![],
        SyncDirection::Bidirectional,
    );
    let paths: Vec<&str> = ops.iter().map(|o| o.rel_path.as_str()).collect();
    assert_eq!(paths, vec!["a.bin", "b.bin", "c.bin"]);
    assert_eq!(skipped, 0);
}

#[test]
fn conflito_e_planejado_mesmo_em_sync_de_mao_unica() {
    let (ops, _) = build_plan(
        vec![local_file("save.bin", T + 300_000)],
        vec![remote_file("save.bin", T + 60_000)],
        vec![manifest_entry("save.bin", T, T)],
        SyncDirection::DriveToLocal,
    );
    assert_eq!(ops.len(), 1);
    assert_eq!(ops[0].action, SyncAction::Conflict);
}

#[test]
fn system_time_ms_converte_e_zera_antes_da_epoca() {
    assert_eq!(system_time_ms(Some(1_700_000_000_123)), 1_700_000_000_123);
    assert_eq!(system_time_ms(None), 0);
}

#[test]
fn primeira_base_vence_em_caminho_repetido() {
    let files = vec![
        local_file("SAVE.bin", 1),
        local_file("b.bin", 2),
        local_file("SAVE.bin", 3),
    ];
    let kept = first_per_path(&files);
    let paths: Vec<(&str, i64)> = kept.iter().map(|f| (f.rel_path.as_str(), f.mtime_ms)).collect();
    assert_eq!(paths, vec![("SAVE.bin", 1), ("b.bin", 2)]);
}

#[test]
fn plano_de_mao_unica_e_o_bidirecional_filtrado() {
    let local = || {
        vec![
            local_file("a.bin", T),
            local_file("b.bin", T + 300_000),
            local_file("d.bin", T),
        ]
    };
    let remote = || {
        vec![
            remote_file("b.bin", T + 60_000),
            remote_file("c.bin", T),
            remote_file("d.bin", T),
        ]
    };
    let manifest = || vec![manifest_entry("b.bin", T, T), manifest_entry("d.bin", T, T)];
    let (both, both_skipped) = build_plan(local(), remote(), manifest(), SyncDirection::Bidirectional);
    let both_view: Vec<(String, SyncAction)> =
        both.iter().map(|o| (o.rel_path.clone(), o.action)).collect();
    assert_eq!(
        both_view,
        vec![
            ("a.bin".to_string(), SyncAction::Upload),
            ("b.bin".to_string(), SyncAction::Conflict),
            ("c.bin".to_string(), SyncAction::Download),
        ]
    );
    assert_eq!(both_skipped, 1);
    for (direction, dropped) in [
        (SyncDirection::DriveToLocal, SyncAction::Upload),
        (SyncDirection::LocalToDrive, SyncAction::Download),
    ] {
        let (ops, skipped) = build_plan(local(), remote(), manifest(), direction);
        let view: Vec<(String, SyncAction)> =
            ops.iter().map(|o| (o.rel_path.clone(), o.action)).collect();
        let expected: Vec<(String, SyncAction)> =
            both_view.iter().filter(|v| v.1 != dropped).cloned().collect();
        assert_eq!(view, expected);
        assert_eq!(skipped as usize, both_skipped as usize + (both.len() - ops.len()));
    }
}
