use retrosync::watcher::fs_watcher::{close_windows, record_activity, watch_list_changed};
use retrosync::constants::{TRIGGER_EMULATOR_START, TRIGGER_EMULATOR_STOP};
use retrosync::emulator::EmulatorProfile;
use retrosync::sync::SyncDirection;
use retrosync::watcher::fs_watcher::{due_emulators, is_temporary, owner_of, watched_dirs, WatchedEmulator};
use retrosync::watcher::{event_plan, monitored_emulators, RunStateTracker, WatcherEvent};

#[test]
fn due_emulators_respeita_a_janela_de_debounce() {
    let now: u64 = 1_000_000;
    let debounce: u64 = 8_000;
    let pending = vec![
        ("PPSSPP".to_string(), now - 10_000),
        ("PCSX2".to_string(), now - 2_000),
    ];
    let due = due_emulators(&pending, now, debounce);
    assert_eq!(due, vec!["PPSSPP".to_string()]);
}

#[test]
fn owner_of_casa_caminho_com_a_pasta_observada() {
    let watched = vec![WatchedEmulator {
        name: "PPSSPP".into(),
        dirs: vec!["/emu/PSP/SAVEDATA".to_string()],
    }];
    assert_eq!(
        owner_of(&watched, "/emu/PSP/SAVEDATA/GAME01/SAVE.bin"),
        Some("PPSSPP")
    );
    assert_eq!(owner_of(&watched, "/outro/lugar.bin"), None);
}

#[test]
fn owner_of_compara_componentes_e_nao_prefixo_de_texto() {
    let watched = vec![WatchedEmulator {
        name: "PPSSPP".into(),
        dirs: vec!["/emu/PSP/SAVEDATA".to_string()],
    }];
    assert_eq!(owner_of(&watched, "/emu/PSP/SAVEDATA2/x.bin"), None);
}

#[test]
fn temporarios_sao_ignorados() {
    assert!(is_temporary("SAVE.bin.retrosync-tmp"));
    assert!(!is_temporary("SAVE.bin"));
}

fn profile() -> EmulatorProfile {
    EmulatorProfile {
        name: "PPSSPP".into(),
        root_path: "/emu".into(),
        saves_paths: vec!["PSP/SAVEDATA".into()],
        config_paths: vec!["PSP/SYSTEM".into()],
        state_paths: vec!["PSP/PPSSPP_STATE".into()],
    }
}

#[test]
fn pastas_observadas_sao_saves_e_savestates() {
    assert_eq!(watched_dirs(&profile()), vec!["/emu/PSP/SAVEDATA", "/emu/PSP/PPSSPP_STATE"]);
}

#[test]
fn abrir_baixa_e_fechar_sobe() {
    let (name, running, dir, trigger) = event_plan(WatcherEvent::EmulatorStarted("PCSX2".into()));
    assert_eq!((name.as_str(), running, dir, trigger), ("PCSX2", true, SyncDirection::DriveToLocal, TRIGGER_EMULATOR_START));
    let (name, running, dir, trigger) = event_plan(WatcherEvent::EmulatorStopped("PCSX2".into()));
    assert_eq!((name.as_str(), running, dir, trigger), ("PCSX2", false, SyncDirection::LocalToDrive, TRIGGER_EMULATOR_STOP));
}

#[test]
fn so_emuladores_com_processo_conhecido_sao_monitorados() {
    let mut other = profile();
    other.name = "Desconhecido".into();
    let m = monitored_emulators(&vec![other, profile()]);
    assert_eq!(m.len(), 1);
    assert_eq!(m[0].name, "PPSSPP");
    assert!(!m[0].process_names.is_empty());
}

#[test]
fn janela_reiniciada_substitui_a_anterior() {
    let mut pending: Vec<(String, u64)> = vec![("PPSSPP".into(), 10), ("PCSX2".into(), 20)];
    record_activity(&mut pending, "PPSSPP", 30);
    assert_eq!(pending, vec![("PCSX2".to_string(), 20), ("PPSSPP".to_string(), 30)]);
    close_windows(&mut pending, &vec!["PCSX2".to_string()]);
    assert_eq!(pending, vec![("PPSSPP".to_string(), 30)]);
}

#[test]
fn lista_observada_mudou() {
    let a = vec![WatchedEmulator { name: "PPSSPP".into(), dirs: vec!["/a".into()] }];
    let b = vec![WatchedEmulator { name: "PPSSPP".into(), dirs: vec!["/a".into()] }];
    let c = vec![WatchedEmulator { name: "PPSSPP".into(), dirs: vec!["/b".into()] }];
    assert!(!watch_list_changed(&a, &b));
    assert!(watch_list_changed(&a, &c));
    assert!(watch_list_changed(&a, &Vec::new()));
}

fn names(v: &[&str]) -> Vec<String> {
    v.iter().map(|s| s.to_string()).collect()
}

#[test]
fn emulador_inicia_na_hora_e_para_apos_ausencias_seguidas() {
    let mut t = RunStateTracker::new(2);
    assert_eq!(
        t.observe(&names(&["PPSSPP"])),
        vec![WatcherEvent::EmulatorStarted("PPSSPP".into())]
    );
    assert!(t.observe(&names(&["PPSSPP"])).is_empty());
    assert!(t.observe(&names(&[])).is_empty());
    assert!(t.observe(&names(&["PPSSPP"])).is_empty());
    assert!(t.observe(&names(&[])).is_empty());
    assert_eq!(
        t.observe(&names(&[])),
        vec![WatcherEvent::EmulatorStopped("PPSSPP".into())]
    );
    assert_eq!(
        t.observe(&names(&["PCSX2", "PCSX2"])),
        vec![WatcherEvent::EmulatorStarted("PCSX2".into())]
    );
}
