use std::any::Any;
use tauri_plugin_vsk_journal::panico::{campos_de_panico, carga_de, descripcion, NIVEL_CRITICO};

fn texto_de(carga: &(dyn Any + Send)) -> String {
    carga_de(
        carga.downcast_ref::<&str>().copied(),
        carga.downcast_ref::<String>().map(|s| s.as_str()),
    )
}

#[test]
fn la_descripcion_lleva_donde_paso() {
    assert_eq!(
        descripcion("called `Option::unwrap()` on a `None` value", Some("src/lib.rs:42")),
        "pánico en src/lib.rs:42: called `Option::unwrap()` on a `None` value"
    );
}

#[test]
fn sin_ubicacion_igual_se_anota() {
    assert_eq!(descripcion("algo", None), "pánico: algo");
}

#[test]
fn se_lee_la_carga_de_los_dos_tipos_de_panic() {
    let literal: Box<dyn std::any::Any + Send> = Box::new("una literal");
    let formateado: Box<dyn std::any::Any + Send> = Box::new(String::from("con formato"));
    assert_eq!(texto_de(literal.as_ref()), "una literal");
    assert_eq!(texto_de(formateado.as_ref()), "con formato");
}

#[test]
fn una_carga_de_otro_tipo_no_pierde_el_aviso() {
    let raro: Box<dyn std::any::Any + Send> = Box::new(42u32);
    assert_eq!(texto_de(raro.as_ref()), "(sin texto)");
}

#[test]
fn un_panic_es_critico_y_no_un_error_cualquiera() {
    assert_eq!(NIVEL_CRITICO, 2, "crítico, no error");
}

#[test]
fn la_entrada_de_un_panico_lleva_archivo_y_linea() {
    let c = campos_de_panico("vasak-desktop", "se rompió", Some(("src/main.rs", 1207)));
    assert_eq!(c.len(), 6);
    assert_eq!(c[0], ("MESSAGE", "pánico en src/main.rs:1207: se rompió".to_string()));
    assert_eq!(c[1], ("PRIORITY", "2".to_string()));
    assert_eq!(c[2], ("SYSLOG_IDENTIFIER", "vasak-desktop".to_string()));
    assert_eq!(c[3], ("VSK_CAPA", "nucleo".to_string()));
    assert_eq!(c[4], ("CODE_FILE", "src/main.rs".to_string()));
    assert_eq!(c[5], ("CODE_LINE", "1207".to_string()));
}

#[test]
fn la_entrada_de_un_panico_sin_lugar() {
    let c = campos_de_panico("vasak-desktop", "algo", None);
    assert_eq!(c.len(), 4);
    assert_eq!(c[0].1, "pánico: algo");
    assert_eq!(c[1].1, "2");
}

#[test]
fn la_carga_prefiere_la_literal() {
    assert_eq!(carga_de(Some("a"), Some("b")), "a");
    assert_eq!(carga_de(None, Some("b")), "b");
    assert_eq!(carga_de(None, None), "(sin texto)");
}
