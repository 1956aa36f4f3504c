use retrosync::emulator::EmulatorProfile;
use retrosync::error::AppError;
use retrosync::storage::emulators::SyncCategories;
use retrosync::sync::diff::PlannedOp;
use retrosync::sync::engine::{OpOutcome, SyncSummary};
use retrosync::sync::run::{
    after_target, after_target_fits, batch_chunk_step, batch_item_outcome, begin_category, category_step,
    merge_fits, plan_bytes, plan_run, step_fits, BatchStep, CategoryAction, CategoryEvent, CategoryStage,
    CategoryState,
};
use retrosync::sync::conflict::SyncAction;
use retrosync::sync::SyncCategory;

fn profile(name: &str) -> EmulatorProfile {
    EmulatorProfile {
        name: name.into(),
        root_path: format!("/emu/{name}"),
        saves_paths: vec!["saves".into()],
        config_paths: vec!["config".into()],
        state_paths: vec!["states".into()],
    }
}

fn all_on() -> SyncCategories {
    SyncCategories { saves: true, savestates: true, config: true }
}

fn labels(r: &Option<Vec<retrosync::sync::SyncTarget>>) -> Vec<String> {
    r.as_ref().unwrap().iter().map(|t| t.label.clone()).collect()
}

#[test]
fn sem_conexao_o_sync_e_recusado() {
    let r = plan_run(false, &vec![profile("PPSSPP")], &vec![all_on()], &vec![false], None);
    assert!(matches!(r, Err(AppError::Auth(_))));
}

#[test]
fn emulador_com_conflito_pendente_fica_de_fora() {
    let profiles = vec![profile("PPSSPP"), profile("PCSX2"), profile("Dolphin")];
    let cats = vec![all_on(), SyncCategories { saves: true, savestates: false, config: false }, all_on()];
    let r = plan_run(true, &profiles, &cats, &vec![false, false, true], None).unwrap();
    assert_eq!(labels(&r), vec!["PPSSPP".to_string(), "PCSX2".to_string()]);
    let pcsx2 = &r.as_ref().unwrap()[1];
    assert_eq!(pcsx2.categories.len(), 1);
    assert_eq!(pcsx2.categories[0].0, SyncCategory::Saves);
}

#[test]
fn filtro_sem_emulador_nada_a_sincronizar() {
    let profiles = vec![profile("PPSSPP")];
    assert!(plan_run(true, &profiles, &vec![all_on()], &vec![false], Some("PCSX2")).unwrap().is_none());
    let bloqueado = plan_run(true, &profiles, &vec![all_on()], &vec![true], Some("PPSSPP")).unwrap();
    assert_eq!(bloqueado.map(|v| v.len()), Some(0));
    let so_um = plan_run(true, &vec![profile("PPSSPP"), profile("PCSX2")], &vec![all_on(), all_on()], &vec![false, false], Some("PCSX2")).unwrap();
    assert_eq!(labels(&so_um), vec!["PCSX2".to_string()]);
}

fn summary(uploaded: u32, failed: u32) -> SyncSummary {
    SyncSummary { uploaded, failed, ..SyncSummary::default() }
}

#[test]
fn resultado_do_emulador_entra_no_resumo() {
    let s = summary(2, 0);
    let ok: Result<SyncSummary, AppError> = Ok(SyncSummary { downloaded: 3, skipped: 4, ..summary(1, 1) });
    assert!(after_target_fits(&s, &ok));
    let t = after_target(s.clone(), &ok);
    assert_eq!((t.uploaded, t.downloaded, t.skipped, t.failed), (3, 3, 4, 1));
    let err: Result<SyncSummary, AppError> = Err(AppError::Network("x".into()));
    let u = after_target(t, &err);
    assert_eq!((u.uploaded, u.failed), (3, 2));
    assert!(!merge_fits(&summary(u32::MAX, 0), &summary(1, 0)));
    assert!(!after_target_fits(&summary(0, u32::MAX), &err));
}

fn step(state: CategoryState, event: CategoryEvent) -> (CategoryState, CategoryAction) {
    assert!(step_fits(&state, &event));
    category_step(state, event)
}

#[test]
fn categoria_completa_conta_cada_operacao_uma_vez() {
    let (s, a) = step(begin_category(summary(1, 0)), CategoryEvent::Begin { has_bases: true });
    assert!(matches!(a, CategoryAction::ResolveFolder));
    let (s, a) = step(s, CategoryEvent::Folder(Ok(())));
    assert!(matches!(a, CategoryAction::ListFolder));
    let (s, a) = step(s, CategoryEvent::Listed(Ok(())));
    assert!(matches!(a, CategoryAction::Plan));
    let (s, a) = step(s, CategoryEvent::Planned(Ok((3, 2, 600))));
    assert!(matches!(a, CategoryAction::PrepareDirs));
    let (s, a) = step(s, CategoryEvent::DirsReady(Ok(())));
    assert!(matches!(a, CategoryAction::Transfer));
    let (s, a) = step(s, CategoryEvent::OpDone { outcome: OpOutcome::Uploaded, bytes: 100 });
    assert!(matches!(a, CategoryAction::Progress { completed: 1, total: 3, bytes_done: 100, bytes_total: 600 }));
    let (s, _) = step(s, CategoryEvent::OpDone { outcome: OpOutcome::DownloadedWithBackup, bytes: 200 });
    assert_eq!(s.stage, CategoryStage::Transferring);
    let (s, a) = step(s, CategoryEvent::OpDone { outcome: OpOutcome::Queued, bytes: 300 });
    assert!(matches!(a, CategoryAction::Progress { completed: 3, total: 3, bytes_done: 600, bytes_total: 600 }));
    assert_eq!(s.stage, CategoryStage::Done);
    let t = &s.summary;
    assert_eq!((t.uploaded, t.downloaded, t.backed_up, t.queued, t.skipped), (2, 1, 1, 1, 2));
    assert_eq!(t.uploaded + t.downloaded + t.conflicts + t.queued + t.failed, 1 + 3);
}

#[test]
fn pasta_obsoleta_e_re_resolvida_uma_vez() {
    let (s, _) = step(begin_category(SyncSummary::default()), CategoryEvent::Begin { has_bases: true });
    let (s, _) = step(s, CategoryEvent::Folder(Ok(())));
    let (s, a) = step(s, CategoryEvent::Listed(Err(AppError::DriveObjectNotFound("pasta".into()))));
    assert!(matches!(a, CategoryAction::InvalidateAndResolve));
    let (s, a) = step(s, CategoryEvent::Folder(Ok(())));
    assert!(matches!(a, CategoryAction::ListFolder));
    let (s2, a) = step(s.clone(), CategoryEvent::Listed(Err(AppError::DriveObjectNotFound("de novo".into()))));
    assert!(matches!(a, CategoryAction::Fail(AppError::DriveObjectNotFound(_))));
    assert_eq!(s2.stage, CategoryStage::Failed);
    let (_, a) = step(s, CategoryEvent::Listed(Ok(())));
    assert!(matches!(a, CategoryAction::Plan));
}

#[test]
fn outro_erro_de_listagem_falha_a_categoria() {
    let (s, _) = step(begin_category(SyncSummary::default()), CategoryEvent::Begin { has_bases: true });
    let (s, _) = step(s, CategoryEvent::Folder(Ok(())));
    let (s, a) = step(s, CategoryEvent::Listed(Err(AppError::Network("offline".into()))));
    assert!(matches!(a, CategoryAction::Fail(AppError::Network(_))));
    assert_eq!(s.stage, CategoryStage::Failed);
}

#[test]
fn categoria_sem_pastas_ou_sem_plano_termina() {
    let (s, a) = step(begin_category(SyncSummary::default()), CategoryEvent::Begin { has_bases: false });
    assert!(matches!(a, CategoryAction::Finish));
    assert_eq!(s.stage, CategoryStage::Done);
    let (s, _) = step(begin_category(summary(0, 0)), CategoryEvent::Begin { has_bases: true });
    let (s, _) = step(s, CategoryEvent::Folder(Ok(())));
    let (s, _) = step(s, CategoryEvent::Listed(Ok(())));
    let (s, a) = step(s, CategoryEvent::Planned(Ok((0, 7, 0))));
    assert!(matches!(a, CategoryAction::Finish));
    assert_eq!((s.stage, s.summary.skipped), (CategoryStage::Done, 7));
}

#[test]
fn evento_fora_de_hora_e_ignorado_e_estouro_e_detectado() {
    let s = begin_category(SyncSummary::default());
    let (t, a) = step(s.clone(), CategoryEvent::Listed(Ok(())));
    assert!(matches!(a, CategoryAction::Ignore));
    assert_eq!(t, s);
    let cheio = CategoryState {
        stage: CategoryStage::Transferring,
        summary: summary(u32::MAX, 0),
        total: 2,
        completed: 0,
        bytes_total: 0,
        bytes_done: 0,
    };
    assert!(!step_fits(&cheio, &CategoryEvent::OpDone { outcome: OpOutcome::Uploaded, bytes: 0 }));
    assert!(step_fits(&cheio, &CategoryEvent::OpDone { outcome: OpOutcome::Failed, bytes: 0 }));
}

#[test]
fn resultado_do_lote() {
    assert_eq!(batch_chunk_step(3, &Ok(3)), BatchStep::RecordAll);
    assert_eq!(batch_chunk_step(3, &Ok(2)), BatchStep::FallBack);
    assert_eq!(batch_chunk_step(3, &Err(AppError::Network("x".into()))), BatchStep::FallBack);
    assert_eq!(batch_item_outcome(&Ok(())), OpOutcome::Uploaded);
    assert_eq!(batch_item_outcome(&Err(AppError::Database("x".into()))), OpOutcome::Failed);
}

fn upload(rel: &str, size: i64) -> PlannedOp {
    PlannedOp {
        rel_path: rel.into(),
        action: SyncAction::Upload,
        local: Some(retrosync::sync::diff::LocalFile {
            rel_path: rel.into(),
            abs_path: format!("/x/{rel}"),
            mtime_ms: 1,
            size_bytes: size,
        }),
        remote: None,
    }
}

#[test]
fn bytes_do_plano() {
    assert_eq!(plan_bytes(&vec![]), Some(0));
    assert_eq!(plan_bytes(&vec![upload("a", 10), upload("b", 32), upload("c", -1)]), Some(42));
}

#[test]
fn contagem_so_exige_espaco_no_contador_usado() {
    let mut s = summary(u32::MAX, 0);
    s.count_outcome(OpOutcome::Downloaded);
    assert_eq!((s.uploaded, s.downloaded), (u32::MAX, 1));
}
