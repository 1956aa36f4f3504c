use retrosync::emulator::profiles::specs;
use retrosync::emulator::{candidate_dirs, detect_emulator, process_names};

fn dirs(list: &[&str]) -> Vec<String> {
    list.iter().map(|s| s.to_string()).collect()
}

/// The relative folders that exist under a root where `made` were created
/// (each with its parents), as the shell reports them.
fn existing(made: &[&str]) -> Vec<String> {
    let mut out: Vec<String> = Vec::new();
    for d in made {
        let parts: Vec<&str> = d.split('/').collect();
        for i in 1..=parts.len() {
            let p = parts[..i].join("/");
            if !out.contains(&p) {
                out.push(p);
            }
        }
    }
    out
}

#[test]
fn detecta_ppsspp_em_pasta_de_dados() {
    let root = "/tmp/emu";
    let profile = detect_emulator(root, &existing(&["PSP/SAVEDATA", "PSP/SYSTEM"]))
        .expect("deveria detectar PPSSPP");
    assert_eq!(profile.name, "PPSSPP");
    assert_eq!(profile.root_path, root);
    assert_eq!(profile.saves_paths, dirs(&["PSP/SAVEDATA"]));
    assert_eq!(profile.config_paths, dirs(&["PSP/SYSTEM"]));
    assert_eq!(profile.state_paths, dirs(&["PSP/PPSSPP_STATE"]));
}

#[test]
fn detecta_ppsspp_em_instalacao_portatil() {
    let profile = detect_emulator("/tmp/emu", &existing(&["memstick/PSP/SAVEDATA"]))
        .expect("deveria detectar PPSSPP portátil");
    assert_eq!(profile.name, "PPSSPP");
    assert_eq!(profile.saves_paths, dirs(&["memstick/PSP/SAVEDATA"]));
}

#[test]
fn nao_detecta_ppsspp_com_psp_sem_marcadores() {
    assert_eq!(detect_emulator("/tmp/emu", &existing(&["PSP"])), None);
}

#[test]
fn detecta_pcsx2_em_pasta_de_dados() {
    let root = "/tmp/emu";
    let profile = detect_emulator(root, &existing(&["inis", "memcards", "sstates"]))
        .expect("deveria detectar PCSX2");
    assert_eq!(profile.name, "PCSX2");
    assert_eq!(profile.root_path, root);
    assert_eq!(profile.saves_paths, dirs(&["memcards"]));
    assert_eq!(profile.config_paths, dirs(&["inis"]));
    assert_eq!(profile.state_paths, dirs(&["sstates"]));
}

#[test]
fn detecta_pcsx2_somente_com_inis_e_bios() {
    let profile = detect_emulator("/tmp/emu", &existing(&["inis", "bios"]))
        .expect("deveria detectar PCSX2");
    assert_eq!(profile.name, "PCSX2");
}

#[test]
fn nao_detecta_pcsx2_somente_com_inis() {
    assert_eq!(detect_emulator("/tmp/emu", &existing(&["inis"])), None);
}

#[test]
fn nao_detecta_em_pasta_vazia() {
    assert_eq!(detect_emulator("/tmp/emu", &Vec::new()), None);
}

#[test]
fn profiles_toml_parseia_e_contem_perfis_conhecidos() {
    let all = specs();
    let names: Vec<&str> = all.iter().map(|s| s.name.as_str()).collect();
    assert!(names.contains(&"PPSSPP"), "esperava PPSSPP no catálogo");
    assert!(names.contains(&"PCSX2"), "esperava PCSX2 no catálogo");
}

#[test]
fn process_names_conhecido_e_desconhecido() {
    assert!(!process_names("PPSSPP").is_empty());
    assert!(process_names("Inexistente").is_empty());
}

#[test]
fn detecao_depende_so_das_pastas_candidatas() {
    let base = existing(&["PSP/SAVEDATA", "PSP/SYSTEM"]);
    let mut extra = base.clone();
    extra.push("outra/coisa".to_string());
    assert!(!candidate_dirs().contains(&"outra/coisa".to_string()));
    assert_eq!(detect_emulator("/r", &base), detect_emulator("/r", &extra));
    for d in ["PSP", "PSP/SAVEDATA", "inis", "memcards", "bios"] {
        assert!(candidate_dirs().contains(&d.to_string()), "{d}");
    }
}
