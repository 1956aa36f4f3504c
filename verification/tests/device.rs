use retrosync::device::{choose_device_id, is_valid};

#[test]
fn aceita_uuid_valido_e_rejeita_lixo() {
    assert!(is_valid(&uuid::Uuid::new_v4().to_string()));
    assert!(!is_valid(""));
    assert!(!is_valid("PC Gamer"));
    assert!(!is_valid("123"));
}

#[test]
fn id_valido_guardado_e_mantido() {
    let stored = "67e55044-10b1-426f-9247-bb680e5fe0c8".to_string();
    let (id, persist) = choose_device_id(Some(stored.clone()));
    assert_eq!(id, stored);
    assert!(!persist);
}

#[test]
fn id_invalido_ou_ausente_e_substituido_e_gravado() {
    let (id, persist) = choose_device_id(Some("PC Gamer".into()));
    assert!(persist);
    assert!(is_valid(&id));
    assert_ne!(id, "PC Gamer");
    let (id2, persist2) = choose_device_id(None);
    assert!(persist2);
    assert!(is_valid(&id2));
}

#[test]
fn formas_aceitas_de_uuid() {
    assert!(is_valid("550e8400e29b41d4a716446655440000"));
    assert!(is_valid("550E8400-E29B-41D4-A716-446655440000"));
    assert!(is_valid("{550e8400-e29b-41d4-a716-446655440000}"));
    assert!(is_valid("urn:uuid:550e8400-e29b-41d4-a716-446655440000"));
    assert!(is_valid("URN:UUID:550e8400-e29b-41d4-a716-446655440000"));
    assert!(!is_valid("550e8400-e29b-41d4-a716-44665544000g"));
    assert!(!is_valid("550e8400e-29b-41d4-a716-446655440000"));
    assert!(!is_valid("[550e8400-e29b-41d4-a716-446655440000]"));
    assert!(!is_valid("urn:uid::550e8400-e29b-41d4-a716-446655440000"));
}
