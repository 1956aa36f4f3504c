use retrosync::versioning::{
    file_name, push_path, sort_newest_first, stamp_of, versioned_name, versions_to_remove,
    FileVersion, FsVersioner,
};

#[test]
fn versioned_name_preserva_extensao() {
    assert_eq!(
        versioned_name("SAVE.bin", "20250717-103000"),
        "SAVE~20250717-103000.bin"
    );
    assert_eq!(
        versioned_name("SAVE", "20250717-103000"),
        "SAVE~20250717-103000"
    );
}

#[test]
fn stamp_of_reconhece_somente_versoes_do_arquivo() {
    assert_eq!(
        stamp_of("SAVE~20250717-103000.bin", "SAVE.bin").as_deref(),
        Some("20250717-103000")
    );
    assert_eq!(stamp_of("SAVEX~20250717-103000.bin", "SAVE.bin"), None);
    assert_eq!(stamp_of("SAVE~qualquer.bin", "SAVE.bin"), None);
}

#[test]
fn carimbo_exige_a_forma_data_hifen_hora() {
    assert_eq!(stamp_of("S~---------------", "S"), None);
    assert_eq!(stamp_of("S~202507171030000", "S"), None);
    assert_eq!(stamp_of("S~2025071-7103000", "S"), None);
    assert_eq!(stamp_of("S~20250717-103000", "S").as_deref(), Some("20250717-103000"));
}

#[test]
fn carimbo_lido_de_volta_do_nome_arquivado() {
    let name = versioned_name("data.tar.gz", "20240101-000000");
    assert_eq!(name, "data.tar~20240101-000000.gz");
    assert_eq!(stamp_of(&name, "data.tar.gz").as_deref(), Some("20240101-000000"));
}

#[test]
fn pasta_do_historico_espelha_a_pasta_do_arquivo() {
    let v = FsVersioner::new("/data/backups".to_string());
    assert_eq!(
        v.dir_for("PPSSPP", "saves", "GAME01/SAVE.bin"),
        "/data/backups/PPSSPP/history/saves/GAME01"
    );
    assert_eq!(v.dir_for("PPSSPP", "saves", "SAVE.bin"), "/data/backups/PPSSPP/history/saves");
    assert_eq!(
        v.archive_path("PPSSPP", "saves", "GAME01/SAVE.bin", "20250717-103000"),
        "/data/backups/PPSSPP/history/saves/GAME01/SAVE~20250717-103000.bin"
    );
}

#[test]
fn push_path_como_pathbuf() {
    assert_eq!(push_path("a", "b"), "a/b");
    assert_eq!(push_path("a/", "b"), "a/b");
    assert_eq!(push_path("", "b"), "b");
    assert_eq!(push_path("a", "/b"), "/b");
    assert_eq!(file_name("x/y/z.bin"), "z.bin");
    assert_eq!(file_name("z.bin"), "z.bin");
}

fn version(stamp: &str) -> FileVersion {
    FileVersion {
        stamp: stamp.to_string(),
        size_bytes: 2,
        modified_at_ms: 0,
        abs_path: format!("/h/SAVE~{stamp}.bin"),
    }
}

#[test]
fn clean_mantem_somente_as_mais_recentes() {
    let sorted = sort_newest_first(vec![
        version("20250101-100000"),
        version("20250103-100000"),
        version("20250102-100000"),
        version("20250104-100000"),
    ]);
    let stamps: Vec<&str> = sorted.iter().map(|v| v.stamp.as_str()).collect();
    assert_eq!(stamps, vec!["20250104-100000", "20250103-100000", "20250102-100000", "20250101-100000"]);
    let removed = versions_to_remove(&sorted, 2);
    assert_eq!(removed, vec!["/h/SAVE~20250102-100000.bin", "/h/SAVE~20250101-100000.bin"]);
    let removed_zero = versions_to_remove(&sorted, 0);
    assert_eq!(removed_zero.len(), 4);
    assert!(versions_to_remove(&sorted, 10).is_empty());
}
