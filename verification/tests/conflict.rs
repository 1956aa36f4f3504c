use retrosync::sync::conflict::{decide, SyncAction, TIMESTAMP_TOLERANCE_MS};

const T: i64 = 1_700_000_000_000;

#[test]
fn arquivo_so_local_sobe() {
    assert_eq!(decide(Some(T), None, None), SyncAction::Upload);
}

#[test]
fn arquivo_so_no_drive_desce() {
    assert_eq!(decide(None, Some(T), None), SyncAction::Download);
}

#[test]
fn inexistente_dos_dois_lados_e_noop() {
    assert_eq!(decide(None, None, None), SyncAction::NoOp);
}

#[test]
fn timestamps_iguais_sao_noop() {
    assert_eq!(decide(Some(T), Some(T), None), SyncAction::NoOp);
}

#[test]
fn diferenca_dentro_da_tolerancia_e_noop() {
    assert_eq!(
        decide(Some(T + TIMESTAMP_TOLERANCE_MS), Some(T), None),
        SyncAction::NoOp
    );
    assert_eq!(
        decide(Some(T), Some(T + TIMESTAMP_TOLERANCE_MS), None),
        SyncAction::NoOp
    );
}

#[test]
fn primeiro_sync_drive_vence_mesmo_com_local_mais_recente() {
    assert_eq!(
        decide(Some(T + 60_000), Some(T), None),
        SyncAction::DownloadWithBackup
    );
}

#[test]
fn primeiro_sync_drive_vence_com_drive_mais_recente() {
    assert_eq!(
        decide(Some(T), Some(T + 60_000), None),
        SyncAction::DownloadWithBackup
    );
}

#[test]
fn sem_mudanca_desde_o_ultimo_sync_e_noop_mesmo_com_relogio_divergente() {
    let local = T;
    let drive = T + 60_000;
    assert_eq!(
        decide(Some(local), Some(drive), Some((local, drive))),
        SyncAction::NoOp
    );
}

#[test]
fn mudanca_local_desde_o_ultimo_sync_sobe() {
    let drive = T;
    let novo_local = T + 120_000;
    assert_eq!(
        decide(Some(novo_local), Some(drive), Some((T, drive))),
        SyncAction::Upload
    );
}

#[test]
fn mudanca_no_drive_desde_o_ultimo_sync_desce() {
    let local = T;
    let novo_drive = T + 120_000;
    assert_eq!(
        decide(Some(local), Some(novo_drive), Some((local, T))),
        SyncAction::Download
    );
}

#[test]
fn conflito_real_ambos_mudaram_vira_conflito() {
    let last = (T, T);
    assert_eq!(
        decide(Some(T + 300_000), Some(T + 60_000), Some(last)),
        SyncAction::Conflict
    );
    assert_eq!(
        decide(Some(T + 60_000), Some(T + 300_000), Some(last)),
        SyncAction::Conflict
    );
}

#[test]
fn ambos_mudaram_mas_com_mesmo_mtime_e_noop() {
    let last = (T, T);
    assert_eq!(
        decide(Some(T + 300_000), Some(T + 300_000), Some(last)),
        SyncAction::NoOp
    );
}

#[test]
fn diferenca_logo_acima_da_tolerancia_no_primeiro_sync_baixa_com_backup() {
    assert_eq!(
        decide(Some(T + TIMESTAMP_TOLERANCE_MS + 1), Some(T), None),
        SyncAction::DownloadWithBackup
    );
}

#[test]
fn decisao_simetrica_troca_upload_e_download() {
    let a = decide(Some(T + 120_000), Some(T), Some((T, T)));
    let b = decide(Some(T), Some(T + 120_000), Some((T, T)));
    assert_eq!(a, SyncAction::Upload);
    assert_eq!(b, SyncAction::Download);
}

#[test]
fn par_registrado_no_manifest_e_estavel() {
    assert_eq!(
        decide(Some(T + 5), Some(T + 99_999), Some((T + 5, T + 99_999))),
        SyncAction::NoOp
    );
}
