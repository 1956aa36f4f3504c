use retrosync::drive::DriveFile;
use retrosync::sync::engine::{chunk_ranges, split_for_batch};
use retrosync::error::AppError;
use retrosync::storage::queue::OpDirection;
use retrosync::storage::settings::NotificationLevel;
use retrosync::sync::conflict::SyncAction;
use retrosync::sync::diff::{LocalFile, PlannedOp};
use retrosync::sync::engine::{
    category_folder_key, check_stable_read, clears_pending, op_bytes, op_outcome, queue_direction,
    record_target_failure, should_notify_completed, split_rel_path, sync_error, sync_started,
    upload_dirs, ConflictResolution, OpOutcome, SyncSummary,
};
use retrosync::sync::engine::parse_u64;
use retrosync::sync::{SyncCategory, SyncDirection};

fn op(rel_path: &str, action: SyncAction) -> PlannedOp {
    PlannedOp {
        rel_path: rel_path.to_string(),
        action,
        local: None,
        remote: None,
    }
}

#[test]
fn upload_dirs_dedup_e_ordena_apenas_uploads() {
    let plan = vec![
        op("game-b/file1.bin", SyncAction::Upload),
        op("game-a/icon.png", SyncAction::Upload),
        op("game-a/param.sfo", SyncAction::Upload),
        op("game-a/data.bin", SyncAction::Upload),
        op("game-c/save.bin", SyncAction::Download),
    ];
    assert_eq!(upload_dirs(&plan), vec!["game-a", "game-b"]);
}

#[test]
fn upload_dirs_ignora_arquivos_na_raiz_da_categoria() {
    let plan = vec![
        op("state-0.bin", SyncAction::Upload),
        op("state-0.jpg", SyncAction::Upload),
    ];
    assert!(upload_dirs(&plan).is_empty());
}

#[test]
fn upload_dirs_usa_a_pasta_inteira_do_arquivo() {
    let plan = vec![op("a/b/c.bin", SyncAction::Upload)];
    assert_eq!(upload_dirs(&plan), vec!["a/b"]);
}

#[test]
fn merge_soma_os_contadores_e_mantem_a_duracao() {
    let mut a = SyncSummary::default();
    a.uploaded = 2;
    a.failed = 1;
    a.duration_ms = 7;
    let mut b = SyncSummary::default();
    b.uploaded = 3;
    b.downloaded = 4;
    b.conflicts = 1;
    b.duration_ms = 99;
    a.merge(&b);
    assert_eq!(a.uploaded, 5);
    assert_eq!(a.downloaded, 4);
    assert_eq!(a.failed, 1);
    assert_eq!(a.conflicts, 1);
    assert_eq!(a.duration_ms, 7);
}

#[test]
fn resultado_de_cada_operacao() {
    assert_eq!(op_outcome(SyncAction::Upload, &Ok(())), OpOutcome::Uploaded);
    assert_eq!(op_outcome(SyncAction::Download, &Ok(())), OpOutcome::Downloaded);
    assert_eq!(
        op_outcome(SyncAction::DownloadWithBackup, &Ok(())),
        OpOutcome::DownloadedWithBackup
    );
    assert_eq!(op_outcome(SyncAction::Conflict, &Ok(())), OpOutcome::Conflicted);
    assert_eq!(
        op_outcome(SyncAction::Upload, &Err(AppError::Network("x".into()))),
        OpOutcome::Queued
    );
    assert_eq!(
        op_outcome(SyncAction::Download, &Err(AppError::FileBusy("x".into()))),
        OpOutcome::Queued
    );
    assert_eq!(
        op_outcome(SyncAction::Upload, &Err(AppError::Other("x".into()))),
        OpOutcome::Failed
    );
}

#[test]
fn count_outcome_conta_backup_como_download() {
    let mut s = SyncSummary::default();
    s.count_outcome(OpOutcome::DownloadedWithBackup);
    s.count_outcome(OpOutcome::Queued);
    assert_eq!(s.downloaded, 1);
    assert_eq!(s.backed_up, 1);
    assert_eq!(s.queued, 1);
}

#[test]
fn conflito_nao_limpa_pendencia_e_direcao_da_fila() {
    assert!(clears_pending(SyncAction::Upload, true));
    assert!(!clears_pending(SyncAction::Conflict, true));
    assert!(!clears_pending(SyncAction::Download, false));
    assert_eq!(queue_direction(SyncAction::Upload), OpDirection::Upload);
    assert_eq!(queue_direction(SyncAction::DownloadWithBackup), OpDirection::Download);
}

#[test]
fn notifica_conclusao_so_com_transferencia_e_nivel_all() {
    let mut s = SyncSummary::default();
    assert!(!should_notify_completed(NotificationLevel::All, &s));
    s.downloaded = 1;
    assert!(should_notify_completed(NotificationLevel::All, &s));
    assert!(!should_notify_completed(NotificationLevel::ErrorsOnly, &s));
    assert!(!should_notify_completed(NotificationLevel::Silent, &s));
}

#[test]
fn bytes_da_operacao() {
    let mut up = op("a.bin", SyncAction::Upload);
    up.local = Some(LocalFile {
        rel_path: "a.bin".into(),
        abs_path: "/x/a.bin".into(),
        mtime_ms: 1,
        size_bytes: 1234,
    });
    assert_eq!(op_bytes(&up), 1234);
    assert_eq!(op_bytes(&op("b.bin", SyncAction::Conflict)), 0);
    let mut down = op("c.bin", SyncAction::Download);
    down.remote = Some(DriveFile {
        id: "id-c".into(),
        name: "c.bin".into(),
        mime_type: "application/octet-stream".into(),
        modified_time_ms: Some(1),
        size: Some("4096".into()),
        device: None,
    });
    assert_eq!(op_bytes(&down), 4096);
    if let Some(f) = down.remote.as_mut() {
        f.size = Some("+12".into());
    }
    assert_eq!(op_bytes(&down), 12);
    if let Some(f) = down.remote.as_mut() {
        f.size = Some("doze".into());
    }
    assert_eq!(op_bytes(&down), 0);
}

#[test]
fn split_rel_path_separa_pasta_e_nome() {
    assert_eq!(split_rel_path("GAME01/SAVE.bin"), (Some("GAME01".to_string()), "SAVE.bin".to_string()));
    assert_eq!(split_rel_path("SAVE.bin"), (None, "SAVE.bin".to_string()));
}

#[test]
fn chave_da_pasta_da_categoria() {
    assert_eq!(category_folder_key("PPSSPP", SyncCategory::Savestates), "RetroSync/PPSSPP/savestates");
}

#[test]
fn leitura_instavel_vira_arquivo_em_uso() {
    assert_eq!(check_stable_read("a.bin", 5, 5), Ok(()));
    assert_eq!(
        check_stable_read("a.bin", 5, 6),
        Err(AppError::FileBusy("a.bin".into()))
    );
}

#[test]
fn eventos_de_inicio_e_erro() {
    let s = sync_started("manual", SyncDirection::Bidirectional);
    assert_eq!(s.trigger, "manual");
    assert_eq!(s.direction, SyncDirection::Bidirectional);
    let e = sync_error("PCSX2", &AppError::Network("timeout".into()));
    assert_eq!(e.emulator.as_deref(), Some("PCSX2"));
    assert_eq!(e.message, AppError::Network("timeout".into()).message());
    assert!(e.message.ends_with("timeout"));
}

#[test]
fn falha_de_emulador_conta_uma_vez() {
    let mut s = SyncSummary::default();
    s.uploaded = 3;
    record_target_failure(&mut s);
    assert_eq!(s.failed, 1);
    assert_eq!(s.uploaded, 3);
}

#[test]
fn escolhas_de_resolucao_sao_distintas() {
    assert_ne!(ConflictResolution::Local, ConflictResolution::Drive);
}

fn small_upload(rel: &str) -> PlannedOp {
    let mut o = op(rel, SyncAction::Upload);
    o.local = Some(LocalFile {
        rel_path: rel.into(),
        abs_path: format!("/x/{rel}"),
        mtime_ms: 1,
        size_bytes: 10,
    });
    o
}

#[test]
fn batch_separa_uploads_novos_e_pequenos() {
    let plan = vec![
        small_upload("a.bin"),
        op("b.bin", SyncAction::Download),
        small_upload("c.bin"),
    ];
    let (batch, rest) = split_for_batch(plan, 2);
    let b: Vec<&str> = batch.iter().map(|o| o.rel_path.as_str()).collect();
    let r: Vec<&str> = rest.iter().map(|o| o.rel_path.as_str()).collect();
    assert_eq!(b, vec!["a.bin", "c.bin"]);
    assert_eq!(r, vec!["b.bin"]);
}

#[test]
fn poucos_elegiveis_vao_todos_pelo_caminho_por_arquivo() {
    let plan = vec![small_upload("a.bin"), op("b.bin", SyncAction::Download)];
    let (batch, rest) = split_for_batch(plan, 5);
    assert!(batch.is_empty());
    let r: Vec<&str> = rest.iter().map(|o| o.rel_path.as_str()).collect();
    assert_eq!(r, vec!["b.bin", "a.bin"]);
}

#[test]
fn lotes_consecutivos_de_tamanho_maximo() {
    assert_eq!(chunk_ranges(7, 3), vec![(0, 3), (3, 6), (6, 7)]);
    assert_eq!(chunk_ranges(6, 3), vec![(0, 3), (3, 6)]);
    assert!(chunk_ranges(0, 3).is_empty());
}

#[test]
fn parse_u64_aceita_digitos_ate_o_limite() {
    assert_eq!(parse_u64("0"), Some(0));
    assert_eq!(parse_u64("+7"), Some(7));
    assert_eq!(parse_u64("18446744073709551615"), Some(u64::MAX));
    assert_eq!(parse_u64("18446744073709551616"), None);
    assert_eq!(parse_u64(""), None);
    assert_eq!(parse_u64("+"), None);
    assert_eq!(parse_u64("-1"), None);
    assert_eq!(parse_u64("1 2"), None);
}
