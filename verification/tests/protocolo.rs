use tauri_plugin_vsk_journal::decimal::en_decimal;
use tauri_plugin_vsk_journal::diario::{armar, campos_de, Capa};

/// Reads a datagram of the native protocol the way the journal does.
fn leer(mut d: &[u8]) -> Option<Vec<(Vec<u8>, Vec<u8>)>> {
    let mut campos = Vec::new();
    while !d.is_empty() {
        let k = d.iter().position(|b| *b == b'=' || *b == b'\n')?;
        let nombre = d[..k].to_vec();
        if d[k] == b'=' {
            let resto = &d[k + 1..];
            let m = resto.iter().position(|b| *b == b'\n')?;
            campos.push((nombre, resto[..m].to_vec()));
            d = &resto[m + 1..];
        } else {
            let resto = &d[k + 1..];
            if resto.len() < 8 {
                return None;
            }
            let n = u64::from_le_bytes(resto[..8].try_into().unwrap()) as usize;
            let datos = &resto[8..];
            if n >= datos.len() || datos[n] != b'\n' {
                return None;
            }
            campos.push((nombre, datos[..n].to_vec()));
            d = &datos[n + 1..];
        }
    }
    Some(campos)
}

#[test]
fn el_diario_lee_exactamente_los_campos_escritos() {
    let c = vec![
        ("MESSAGE", "linea uno\nPRIORITY=0\nSYSLOG_IDENTIFIER=sshd".to_string()),
        ("_PID", "1".to_string()),
        ("PRIORITY", "6".to_string()),
        ("OTRO", "a=b".to_string()),
    ];
    let leidos = leer(&armar(&c)).unwrap();
    assert_eq!(
        leidos,
        vec![
            (b"MESSAGE".to_vec(), b"linea uno\nPRIORITY=0\nSYSLOG_IDENTIFIER=sshd".to_vec()),
            (b"PRIORITY".to_vec(), b"6".to_vec()),
            (b"OTRO".to_vec(), b"a=b".to_vec()),
        ]
    );
}

#[test]
fn una_entrada_con_mensaje_malicioso_se_lee_con_su_identificador() {
    let d = armar(&campos_de(
        "vasak-prueba",
        Capa::Interfaz,
        6,
        "marca\nPRIORITY=0\nSYSLOG_IDENTIFIER=sshd\nMESSAGE=entrada falsa",
    ));
    let leidos = leer(&d).unwrap();
    assert_eq!(leidos.len(), 4);
    assert_eq!(leidos[1], (b"PRIORITY".to_vec(), b"6".to_vec()));
    assert_eq!(leidos[2], (b"SYSLOG_IDENTIFIER".to_vec(), b"vasak-prueba".to_vec()));
    assert_eq!(leidos[3], (b"VSK_CAPA".to_vec(), b"interfaz".to_vec()));
}

#[test]
fn los_numeros_en_decimal() {
    assert_eq!(en_decimal(0), "0");
    assert_eq!(en_decimal(7), "7");
    assert_eq!(en_decimal(10), "10");
    assert_eq!(en_decimal(1207), "1207");
    assert_eq!(en_decimal(u32::MAX), "4294967295");
}
