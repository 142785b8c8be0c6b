use tauri_plugin_vsk_journal::diario::{
    armar, campos_de, codificar_campo, mensaje_de_respaldo, nivel_valido,
    nombre_de_campo_valido, recortar, Capa, LIMITE_MENSAJE, MARCA_DE_RECORTE,
};

#[test]
fn un_valor_con_salto_de_linea_no_puede_inventar_campos() {
    let malicioso = "parece inofensivo\nPRIORITY=0\nMESSAGE=el sistema se cae\n";
    let codificado = codificar_campo("MESSAGE", malicioso);

    assert!(codificado.starts_with(b"MESSAGE\n"));
    let largo = u64::from_le_bytes(codificado[8..16].try_into().unwrap());
    assert_eq!(largo as usize, malicioso.len());
    assert_eq!(&codificado[16..16 + malicioso.len()], malicioso.as_bytes());
    assert_eq!(*codificado.last().unwrap(), b'\n');

    assert!(!codificado.starts_with(b"MESSAGE="));
}

#[test]
fn un_valor_normal_va_en_la_forma_corta() {
    assert_eq!(codificar_campo("PRIORITY", "3"), b"PRIORITY=3\n".to_vec());
}

#[test]
fn el_largo_de_la_forma_larga_cuenta_bytes_y_no_caracteres() {
    let valor = "ñandú\nsigue";
    let c = codificar_campo("MESSAGE", valor);
    let largo = u64::from_le_bytes(c[8..16].try_into().unwrap());
    assert_eq!(largo as usize, valor.len());
    assert_ne!(largo as usize, valor.chars().count());
}

#[test]
fn los_campos_reservados_del_diario_no_se_pueden_escribir() {
    assert!(!nombre_de_campo_valido("_PID"));
    assert!(!nombre_de_campo_valido("_COMM"));
    assert!(!nombre_de_campo_valido("__CURSOR"));
}

#[test]
fn un_nombre_de_campo_tiene_que_ser_el_que_el_diario_acepta() {
    assert!(nombre_de_campo_valido("MESSAGE"));
    assert!(nombre_de_campo_valido("VSK_CAPA"));
    assert!(nombre_de_campo_valido("CODE_LINE"));
    assert!(!nombre_de_campo_valido("mensaje"), "minúsculas");
    assert!(!nombre_de_campo_valido("MI CAMPO"), "espacio");
    assert!(!nombre_de_campo_valido("MI=CAMPO"), "igual");
    assert!(!nombre_de_campo_valido("MI\nCAMPO"), "salto");
    assert!(!nombre_de_campo_valido("1CAMPO"), "empieza con dígito");
    assert!(!nombre_de_campo_valido(""));
    assert!(!nombre_de_campo_valido(&"A".repeat(65)));
}

#[test]
fn un_campo_con_nombre_invalido_no_arrastra_al_resto() {
    let d = armar(&[
        ("MESSAGE", "hola".to_string()),
        ("_PID", "1".to_string()),
        ("PRIORITY", "6".to_string()),
    ]);
    let texto = String::from_utf8_lossy(&d);
    assert!(texto.contains("MESSAGE=hola"));
    assert!(texto.contains("PRIORITY=6"));
    assert!(!texto.contains("_PID"));
}

#[test]
fn el_nivel_se_acota_en_lugar_de_perder_el_mensaje() {
    assert_eq!(nivel_valido(3), 3);
    assert_eq!(nivel_valido(7), 7);
    assert_eq!(nivel_valido(9), 7);
    assert_eq!(nivel_valido(255), 7);
}

#[test]
fn recortar_no_parte_un_caracter_al_medio() {
    let mensaje = "ñ".repeat(100);
    let corto = recortar(&mensaje, 20);
    assert!(corto.ends_with(MARCA_DE_RECORTE));
    assert!(corto.len() <= 20 + MARCA_DE_RECORTE.len());
    assert!(corto.chars().all(|c| c == 'ñ' || MARCA_DE_RECORTE.contains(c)));
}

#[test]
fn un_mensaje_que_entra_no_se_toca() {
    assert_eq!(recortar("corto", LIMITE_MENSAJE), "corto");
}

#[test]
fn un_mensaje_recortado_lo_dice() {
    let largo = "a".repeat(LIMITE_MENSAJE + 1);
    assert!(recortar(&largo, LIMITE_MENSAJE).ends_with(MARCA_DE_RECORTE));
}

#[test]
fn una_entrada_corriente_lleva_lo_que_hace_falta_para_encontrarla() {
    let c = campos_de("vasak-terminal", Capa::Interfaz, 3, "algo falló");
    let texto = String::from_utf8_lossy(&armar(&c)).to_string();
    assert!(texto.contains("SYSLOG_IDENTIFIER=vasak-terminal"));
    assert!(texto.contains("PRIORITY=3"));
    assert!(texto.contains("VSK_CAPA=interfaz"));
    assert!(texto.contains("MESSAGE=algo falló"));
}

#[test]
fn el_identificador_no_lo_elige_el_mensaje() {
    let d = armar(&campos_de(
        "vasak-terminal",
        Capa::Interfaz,
        6,
        "x\nSYSLOG_IDENTIFIER=otro",
    ));
    assert!(d.starts_with(b"MESSAGE\n"), "el mensaje tiene que ir en forma larga");

    let esperado = b"SYSLOG_IDENTIFIER=vasak-terminal\n";
    assert!(
        d.windows(esperado.len()).any(|v| v == esperado),
        "falta el identificador de la aplicación"
    );

    let largo = u64::from_le_bytes(d[8..16].try_into().unwrap()) as usize;
    let datos = &d[16..16 + largo];
    assert!(std::str::from_utf8(datos).unwrap().contains("SYSLOG_IDENTIFIER=otro"));
}

#[test]
fn la_capa_se_escribe_con_su_nombre() {
    assert_eq!(Capa::Interfaz.como_texto(), "interfaz");
    assert_eq!(Capa::Nucleo.como_texto(), "nucleo");
}

#[test]
fn un_recorte_con_limite_menor_que_la_marca_deja_solo_la_marca() {
    assert_eq!(recortar("abcdefghijklmnopqrstuvwxyz", 3), MARCA_DE_RECORTE);
}

#[test]
fn un_recorte_exacto_conserva_lo_que_cabe() {
    // 15 bytes of mark, so 5 bytes of text fit in 20: "abcde".
    assert_eq!(MARCA_DE_RECORTE.len(), 15);
    let r = recortar("abcdefghijklmnopqrstuvwxyz", 20);
    assert_eq!(r, format!("abcde{}", MARCA_DE_RECORTE));
    // With two-byte characters, only two fit in five bytes.
    let r = recortar("ñññññññññññññ", 20);
    assert_eq!(r, format!("ññ{}", MARCA_DE_RECORTE));
}

#[test]
fn la_forma_corta_conserva_el_igual_del_valor() {
    assert_eq!(codificar_campo("MESSAGE", "a=b"), b"MESSAGE=a=b\n".to_vec());
}

#[test]
fn la_forma_larga_exacta() {
    let c = codificar_campo("M", "a\nb");
    assert_eq!(c, vec![b'M', b'\n', 3, 0, 0, 0, 0, 0, 0, 0, b'a', b'\n', b'b', b'\n']);
}

#[test]
fn un_datagrama_sin_campos_es_vacio() {
    assert!(armar(&[]).is_empty());
    assert!(armar(&[("_X", "y".to_string())]).is_empty());
}

#[test]
fn los_campos_de_una_entrada_en_orden() {
    let c = campos_de("vasak-terminal", Capa::Nucleo, 12, "hola");
    let nombres: Vec<&str> = c.iter().map(|(n, _)| *n).collect();
    assert_eq!(nombres, vec!["MESSAGE", "PRIORITY", "SYSLOG_IDENTIFIER", "VSK_CAPA"]);
    assert_eq!(c[0].1, "hola");
    assert_eq!(c[1].1, "7");
    assert_eq!(c[2].1, "vasak-terminal");
    assert_eq!(c[3].1, "nucleo");
}

#[test]
fn el_respaldo_es_el_mensaje() {
    let c = campos_de("vasak-terminal", Capa::Nucleo, 3, "se cayó");
    assert_eq!(mensaje_de_respaldo(&c), "se cayó");
    assert_eq!(mensaje_de_respaldo(&[("PRIORITY", "3".to_string())]), "(sin mensaje)");
    assert_eq!(
        mensaje_de_respaldo(&[
            ("X", "1".to_string()),
            ("MESSAGE", "primero".to_string()),
            ("MESSAGE", "segundo".to_string()),
        ]),
        "primero"
    );
}
