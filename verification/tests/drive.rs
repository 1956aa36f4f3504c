use retrosync::drive::client::{
    after_body, after_network_error, after_status, backoff_base_ms, backoff_delay_ms, jittered_delay,
    contains_text, RetryStep,
};
use retrosync::drive::files::{
    children_query, find_query, hex_text, list_entry, ms_to_rfc3339, multipart_body,
    multipart_boundary, use_resumable, ListEntry,
};
use retrosync::drive::folders::{category_chain, subpath_steps, FolderCache};
use retrosync::drive::{DriveFile, FOLDER_MIME_TYPE, SIMPLE_UPLOAD_MAX_BYTES};
use retrosync::error::AppError;
use retrosync::sync::SyncCategory;

fn seeded(seed: &[(&str, &str)]) -> FolderCache {
    FolderCache::from_entries(seed.iter().map(|(k, v)| (k.to_string(), v.to_string())).collect())
}

#[test]
fn ensure_root_resolve_pelo_cache_persistido() {
    let cache = seeded(&[("RetroSync", "id-root")]);
    let chain = category_chain("PPSSPP", SyncCategory::Saves);
    assert_eq!(cache.get(&chain[0].1).as_deref(), Some("id-root"));
}

#[test]
fn ensure_category_folder_resolve_a_cadeia_cacheada() {
    let cache = seeded(&[
        ("RetroSync", "id-root"),
        ("RetroSync/PPSSPP", "id-emu"),
        ("RetroSync/PPSSPP/saves", "id-saves"),
    ]);
    let chain = category_chain("PPSSPP", SyncCategory::Saves);
    let keys: Vec<&str> = chain.iter().map(|(_, k)| k.as_str()).collect();
    assert_eq!(keys, vec!["RetroSync", "RetroSync/PPSSPP", "RetroSync/PPSSPP/saves"]);
    assert_eq!(cache.get(&chain[2].1).as_deref(), Some("id-saves"));
}

#[test]
fn ensure_subpath_percorre_segmentos_cacheados() {
    let cache = seeded(&[
        ("RetroSync/PPSSPP/saves/jogo", "id-jogo"),
        ("RetroSync/PPSSPP/saves/jogo/slot1", "id-slot1"),
    ]);
    let steps = subpath_steps("RetroSync/PPSSPP/saves", "jogo/slot1");
    let last = steps.last().unwrap();
    assert_eq!(cache.get(&last.1).as_deref(), Some("id-slot1"));
    assert_eq!(steps[0], ("jogo".to_string(), "RetroSync/PPSSPP/saves/jogo".to_string()));
}

#[test]
fn subpath_ignora_segmentos_vazios() {
    let steps = subpath_steps("base", "/a//b/");
    assert_eq!(
        steps,
        vec![("a".to_string(), "base/a".to_string()), ("b".to_string(), "base/a/b".to_string())]
    );
}

#[test]
fn invalidate_folder_path_remove_apenas_a_subarvore() {
    let mut cache = seeded(&[
        ("RetroSync", "id-root"),
        ("RetroSync/PPSSPP", "id-emu"),
        ("RetroSync/PPSSPP/saves", "id-saves"),
        ("RetroSync/PCSX2", "id-outro"),
    ]);
    cache.invalidate_subtree("RetroSync/PPSSPP");
    assert!(cache.get("RetroSync/PPSSPP").is_none());
    assert!(cache.get("RetroSync/PPSSPP/saves").is_none());
    assert!(cache.get("RetroSync").is_some());
    assert!(cache.get("RetroSync/PCSX2").is_some());
}

#[test]
fn invalidar_nao_remove_irmao_com_mesmo_prefixo_de_texto() {
    let mut cache = seeded(&[("RetroSync/PPSSPP", "a"), ("RetroSync/PPSSPP2", "b")]);
    cache.invalidate_subtree("RetroSync/PPSSPP");
    assert_eq!(cache.get("RetroSync/PPSSPP2").as_deref(), Some("b"));
}

#[test]
fn clear_folder_cache_zera_memoria_e_sqlite() {
    let mut cache = seeded(&[("RetroSync", "id-root"), ("RetroSync/PPSSPP", "id-emu")]);
    assert!(!cache.is_empty());
    cache.clear();
    assert!(cache.is_empty());
}

#[test]
fn insert_substitui_o_id_anterior() {
    let mut cache = FolderCache::new();
    cache.insert("RetroSync".into(), "velho".into());
    cache.insert("RetroSync".into(), "novo".into());
    assert_eq!(cache.get("RetroSync").as_deref(), Some("novo"));
}

#[test]
fn politica_de_retry() {
    assert_eq!(after_status(1, 200), RetryStep::Succeeded);
    assert_eq!(after_status(1, 401), RetryStep::RenewToken);
    assert_eq!(after_status(3, 401), RetryStep::ReadBody);
    assert_eq!(after_status(1, 500), RetryStep::ReadBody);
    assert_eq!(after_body("files.list", 1, 503, "503 Service Unavailable", ""), RetryStep::Backoff);
    assert_eq!(after_body("files.list", 2, 429, "429 Too Many Requests", ""), RetryStep::Backoff);
    assert_eq!(
        after_body("files.list", 1, 403, "403 Forbidden", "{\"reason\":\"userRateLimitExceeded\"}"),
        RetryStep::Backoff
    );
    assert_eq!(
        after_body("files.get", 1, 404, "404 Not Found", "sumiu"),
        RetryStep::Failed(AppError::DriveObjectNotFound("files.get: sumiu".into()))
    );
    assert_eq!(
        after_body("files.get", 1, 403, "403 Forbidden", "negado"),
        RetryStep::Failed(AppError::Other("Drive files.get falhou (403 Forbidden): negado".into()))
    );
    assert_eq!(
        after_body("files.list", 3, 503, "503 Service Unavailable", "x"),
        RetryStep::Failed(AppError::Other("Drive files.list falhou (503 Service Unavailable): x".into()))
    );
    assert_eq!(after_network_error(2, AppError::Network("reset".into())), RetryStep::Backoff);
    assert_eq!(
        after_network_error(3, AppError::Network("reset".into())),
        RetryStep::Failed(AppError::Network("reset".into()))
    );
}

#[test]
fn backoff_exponencial_com_jitter() {
    assert_eq!(backoff_base_ms(0), 500);
    assert_eq!(backoff_base_ms(1), 500);
    assert_eq!(backoff_base_ms(2), 1000);
    assert_eq!(backoff_base_ms(3), 2000);
    assert_eq!(backoff_base_ms(200), u64::MAX);
    assert_eq!(jittered_delay(2, 0), 1000);
    assert_eq!(jittered_delay(2, 249), 1249);
    assert_eq!(jittered_delay(1, 17), 517);
    for attempt in 1..4 {
        let d = backoff_delay_ms(attempt);
        let base = backoff_base_ms(attempt);
        assert!(base <= d && d < base + 250);
    }
}

#[test]
fn busca_de_texto() {
    assert!(contains_text("userRateLimitExceeded", "ateLimitExceeded"));
    assert!(!contains_text("forbidden", "ateLimitExceeded"));
    assert!(contains_text("abc", ""));
}

#[test]
fn consultas_do_drive() {
    assert_eq!(children_query("F1"), "'F1' in parents and trashed = false");
    assert_eq!(
        find_query("F1", "saves", Some(FOLDER_MIME_TYPE)),
        "name = 'saves' and 'F1' in parents and trashed = false and mimeType = 'application/vnd.google-apps.folder'"
    );
    assert_eq!(find_query("F1", "x.json", None), "name = 'x.json' and 'F1' in parents and trashed = false");
}

fn drive_file(name: &str, mime: &str) -> DriveFile {
    DriveFile {
        id: format!("id-{name}"),
        name: name.into(),
        mime_type: mime.into(),
        modified_time_ms: Some(1),
        size: None,
        device: None,
    }
}

#[test]
fn listagem_recursiva_monta_caminhos_relativos() {
    match list_entry("GAME01/", drive_file("SAVE.bin", "application/octet-stream")) {
        ListEntry::File(f) => assert_eq!(f.rel_path, "GAME01/SAVE.bin"),
        ListEntry::Descend { .. } => panic!("arquivo tratado como pasta"),
    }
    match list_entry("", drive_file("GAME01", FOLDER_MIME_TYPE)) {
        ListEntry::Descend { folder_id, prefix } => {
            assert_eq!(folder_id, "id-GAME01");
            assert_eq!(prefix, "GAME01/");
        }
        ListEntry::File(_) => panic!("pasta tratada como arquivo"),
    }
}

#[test]
fn upload_grande_usa_sessao_resumable() {
    assert!(!use_resumable(SIMPLE_UPLOAD_MAX_BYTES));
    assert!(use_resumable(SIMPLE_UPLOAD_MAX_BYTES + 1));
}

#[test]
fn boundary_e_corpo_multipart() {
    assert_eq!(hex_text(0xab, 16), "00000000000000ab");
    let b = multipart_boundary();
    assert!(b.starts_with("retrosync-"));
    assert_eq!(b.len(), "retrosync-".len() + 16);
    assert!(b["retrosync-".len()..].chars().all(|c| c.is_ascii_hexdigit() && !c.is_ascii_uppercase()));
    let body = multipart_body("B", b"{\"a\":1}", b"xyz");
    let expected = b"--B\r\nContent-Type: application/json; charset=UTF-8\r\n\r\n{\"a\":1}\r\n--B\r\nContent-Type: application/octet-stream\r\n\r\nxyz\r\n--B--\r\n".to_vec();
    assert_eq!(body, expected);
}

#[test]
fn mtime_em_rfc3339() {
    assert_eq!(ms_to_rfc3339(0).as_deref(), Some("1970-01-01T00:00:00.000Z"));
    assert_eq!(ms_to_rfc3339(1_700_000_000_123).as_deref(), Some("2023-11-14T22:13:20.123Z"));
    assert!(ms_to_rfc3339(i64::MAX).is_some(), "fora do alcance cai no relógio");
}
