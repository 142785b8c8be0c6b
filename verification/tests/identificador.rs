use tauri_plugin_vsk_journal::{
    identificador_pedido, identificador_por_omision, identificador_valido, Capa, Diario, Error,
    AVISO, CRITICO, DEPURACION, EMERGENCIA, ERROR, INFORMATIVO, LIMITE_IDENTIFICADOR,
};

#[test]
fn un_identificador_con_separadores_del_protocolo_no_pasa() {
    assert!(!identificador_valido("vasak\nterminal"));
    assert!(!identificador_valido("vasak=terminal"));
    assert!(!identificador_valido("vasak\0terminal"));
    assert!(!identificador_valido(""));
    assert!(!identificador_valido(&"a".repeat(LIMITE_IDENTIFICADOR + 1)));
    assert!(identificador_valido("vasak-terminal"));
    assert!(identificador_valido("vasak-file-manager"));
}

#[test]
fn siempre_hay_un_identificador_con_el_que_firmar() {
    // Whatever the executable is called, or if it has no name, there is a signature.
    let nombres = [None, Some("identificador-abc123"), Some(""), Some("x\ny"), Some("a=b")];
    for ejecutable in nombres {
        let por_omision = identificador_por_omision(ejecutable);
        assert!(!por_omision.is_empty());
        assert!(identificador_valido(&por_omision));
    }
}

#[test]
fn los_niveles_son_los_de_syslog() {
    assert_eq!((EMERGENCIA, CRITICO, ERROR, AVISO, INFORMATIVO, DEPURACION), (0, 2, 3, 4, 6, 7));
}

#[test]
fn el_largo_del_identificador_cuenta_bytes() {
    assert!(identificador_valido(&"a".repeat(LIMITE_IDENTIFICADOR)));
    // 32 two-byte characters are 64 bytes; 33 are too many.
    assert!(identificador_valido(&"ñ".repeat(32)));
    assert!(!identificador_valido(&"ñ".repeat(33)));
}

#[test]
fn sin_ejecutable_valido_se_firma_como_vasak_app() {
    assert_eq!(identificador_por_omision(None), "vasak-app");
    assert_eq!(identificador_por_omision(Some("a=b")), "vasak-app");
    assert_eq!(identificador_por_omision(Some("vasak-terminal")), "vasak-terminal");
}

#[test]
fn un_identificador_pedido_invalido_cae_al_del_ejecutable() {
    assert_eq!(identificador_pedido("vasak-galeria", Some("vasak-x")), "vasak-galeria");
    assert_eq!(identificador_pedido("mal\nnombre", Some("vasak-x")), "vasak-x");
    assert_eq!(identificador_pedido("", None), "vasak-app");
}

#[test]
fn un_diario_firma_con_su_identificador() {
    let d = Diario::nuevo("vasak-terminal").unwrap();
    assert_eq!(d.identificador(), "vasak-terminal");
    let e = d.error("no se pudo abrir la configuración");
    assert_eq!(e[0], ("MESSAGE", "no se pudo abrir la configuración".to_string()));
    assert_eq!(e[1].1, "3");
    assert_eq!(e[2].1, "vasak-terminal");
    assert_eq!(e[3].1, "nucleo");
    assert_eq!(d.aviso("x")[1].1, "4");
    assert_eq!(d.informacion("x")[1].1, "6");
    assert_eq!(d.depuracion("x")[1].1, "7");
    let r = d.registrar(Capa::Interfaz, 200, "desde la interfaz");
    assert_eq!(r[1].1, "7");
    assert_eq!(r[3].1, "interfaz");
}

#[test]
fn un_diario_no_se_arma_con_un_identificador_invalido() {
    match Diario::nuevo("vasak\nterminal") {
        Err(Error::Identificador(t)) => assert_eq!(t, "vasak\nterminal"),
        Ok(_) => panic!("un identificador con salto no puede firmar"),
    }
    let e = Diario::nuevo("").err().unwrap();
    assert_eq!(e.texto(), "identificador inválido: ");
}
