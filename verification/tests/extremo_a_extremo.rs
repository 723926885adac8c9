use sombras::clave::{bits_de_clave, clave_de_bits};
use sombras::intervalo::Intervalo;
use sombras::longitud_union::union_disjunta;
use sombras::parseador::{dos_campos, parsear_cantidad, ErrorDeEntrada};
use std::f64::consts::PI;

fn aproximadamente_iguales(a: f64, b: f64, tolerancia: f64) -> bool {
    let diferencia = (a - b).abs();
    diferencia <= tolerancia.max(1e-12) || diferencia / b.abs().max(1.0) <= tolerancia
}

fn clave(valor: f64) -> i64 {
    clave_de_bits(valor.to_bits())
}

fn valor(clave: i64) -> f64 {
    assert!(clave > i64::MIN);
    f64::from_bits(bits_de_clave(clave))
}

fn leer_real(campo: &str, minimo: f64, maximo: f64) -> Result<f64, ErrorDeEntrada> {
    let v: f64 = campo.parse().map_err(|_| ErrorDeEntrada::NumeroInvalido)?;
    if v < minimo || v > maximo || v.is_nan() {
        return Err(ErrorDeEntrada::FueraDeRango);
    }
    Ok(v)
}

fn encabezado(linea: Option<&str>) -> Result<(f64, usize), ErrorDeEntrada> {
    let linea = linea.ok_or(ErrorDeEntrada::LineaFaltante)?;
    let (ang_str, n_str) = dos_campos(linea)?;
    let angulo = leer_real(ang_str, 10.0, 80.0)?;
    let n = parsear_cantidad(n_str)?;
    Ok((angulo, n))
}

fn flatlanders(lineas: &mut std::str::Lines<'_>, n: usize) -> Result<Vec<(f64, f64)>, ErrorDeEntrada> {
    let mut leidos = Vec::new();
    for _ in 0..n {
        let linea = lineas.next().ok_or(ErrorDeEntrada::LineaFaltante)?;
        let (x_str, h_str) = dos_campos(linea)?;
        let x: f64 = x_str.parse().map_err(|_| ErrorDeEntrada::NumeroInvalido)?;
        let h: f64 = h_str.parse().map_err(|_| ErrorDeEntrada::NumeroInvalido)?;
        if !(0.0..=300_000.0).contains(&x) || !(1.0..=1000.0).contains(&h) {
            return Err(ErrorDeEntrada::FueraDeRango);
        }
        leidos.push((x, h));
    }
    Ok(leidos)
}

fn total_de(entrada: &str) -> Result<f64, ErrorDeEntrada> {
    let mut lineas = entrada.lines();
    let (angulo, n) = encabezado(lineas.next())?;
    let tangente = (angulo * PI / 180.0).tan();
    let mut sombras = Vec::new();
    for (x, h) in flatlanders(&mut lineas, n)? {
        sombras.push(Intervalo::nuevo(clave(x), clave(x + h / tangente)));
    }
    let mut total = 0.0;
    for pieza in union_disjunta(sombras) {
        total += valor(pieza.fin) - valor(pieza.inicio);
    }
    Ok(total)
}

#[test]
fn ok_superposicion_simple_45() {
    let total = total_de("45 2\n0 10\n5 10\n").unwrap();
    assert!(aproximadamente_iguales(total, 15.0, 1e-4));
}

#[test]
fn ok_ejemplo_30_grados() {
    let total = total_de("30 3\n50 150\n0 100\n100 200\n").unwrap();
    let esperado = 446.4101615137755_f64;
    assert!(aproximadamente_iguales(total, esperado, 1e-4));
}

#[test]
fn ok_ejemplo_45_grados() {
    let total = total_de("45 3\n50 150\n0 100\n100 200\n").unwrap();
    let esperado = 300.00000000000006_f64;
    assert!(aproximadamente_iguales(total, esperado, 1e-4));
}

#[test]
fn ok_sin_solapamiento_45() {
    let total = total_de("45 2\n0 10\n20 5\n").unwrap();
    assert!(aproximadamente_iguales(total, 15.0, 1e-4));
}

#[test]
fn err_encabezado_numero_invalido() {
    assert_eq!(total_de("xx 2\n0 10\n0 10\n"), Err(ErrorDeEntrada::NumeroInvalido));
}

#[test]
fn err_angulo_fuera_de_rango_bajo() {
    assert_eq!(total_de("5 2\n0 10\n0 10\n"), Err(ErrorDeEntrada::FueraDeRango));
}

#[test]
fn err_angulo_fuera_de_rango_alto() {
    assert_eq!(total_de("85 2\n0 10\n0 10\n"), Err(ErrorDeEntrada::FueraDeRango));
}

#[test]
fn err_valor_faltante_en_encabezado() {
    assert_eq!(total_de("45\n0 10\n0 10\n"), Err(ErrorDeEntrada::ValorFaltante));
}

#[test]
fn err_linea_faltante_en_datos() {
    assert_eq!(total_de("45 2\n0 10\n"), Err(ErrorDeEntrada::LineaFaltante));
}

#[test]
fn err_numero_invalido_en_x() {
    assert_eq!(total_de("45 1\na 10\n"), Err(ErrorDeEntrada::NumeroInvalido));
}

#[test]
fn err_numero_invalido_en_h() {
    assert_eq!(total_de("45 1\n0 a\n"), Err(ErrorDeEntrada::NumeroInvalido));
}

#[test]
fn err_cantidad_fuera_de_rango() {
    assert_eq!(total_de("45 0\n"), Err(ErrorDeEntrada::FueraDeRango));
    assert_eq!(total_de("45 100001\n"), Err(ErrorDeEntrada::FueraDeRango));
}

#[test]
fn las_claves_guardan_el_orden_de_los_reales() {
    let reales = [-1.0e300, -305_672.5, -1.0, -1.0e-300, 0.0, 5.0e-324, 0.1, 1.0, 15.000000000000002, 3.0e5, 1.0e300];
    for par in reales.windows(2) {
        assert!(clave(par[0]) < clave(par[1]));
    }
    for r in reales {
        assert_eq!(valor(clave(r)), r);
    }
    assert_eq!(clave(-0.0), clave(0.0));
}

#[test]
fn piezas_de_sombras_con_decimales() {
    let sombras = vec![
        Intervalo::nuevo(clave(2.5), clave(0.25)),
        Intervalo::nuevo(clave(2.5), clave(2.75)),
        Intervalo::nuevo(clave(3.0), clave(3.5)),
    ];
    let piezas = union_disjunta(sombras);
    let extremos: Vec<(f64, f64)> = piezas.iter().map(|p| (valor(p.inicio), valor(p.fin))).collect();
    assert_eq!(extremos, vec![(0.25, 2.75), (3.0, 3.5)]);
}

#[test]
fn parsear_encabezado_ok() {
    assert_eq!(encabezado(Some("45 3")), Ok((45.0, 3)));
}

#[test]
fn parsear_encabezado_linea_faltante() {
    assert_eq!(encabezado(None), Err(ErrorDeEntrada::LineaFaltante));
}

#[test]
fn parsear_encabezado_valor_faltante() {
    assert_eq!(encabezado(Some("45")), Err(ErrorDeEntrada::ValorFaltante));
}

#[test]
fn parsear_encabezado_numero_invalido() {
    assert_eq!(encabezado(Some("xx 2")), Err(ErrorDeEntrada::NumeroInvalido));
}

#[test]
fn parsear_encabezado_fuera_de_rango_bajo() {
    assert_eq!(encabezado(Some("5 2")), Err(ErrorDeEntrada::FueraDeRango));
}

#[test]
fn parsear_encabezado_fuera_de_rango_alto() {
    assert_eq!(encabezado(Some("85 2")), Err(ErrorDeEntrada::FueraDeRango));
}

#[test]
fn parsear_encabezado_n_fuera_de_rango_bajo() {
    assert_eq!(encabezado(Some("45 0")), Err(ErrorDeEntrada::FueraDeRango));
}

#[test]
fn parsear_encabezado_n_fuera_de_rango_alto() {
    assert_eq!(encabezado(Some("45 100001")), Err(ErrorDeEntrada::FueraDeRango));
}

#[test]
fn parsear_encabezado_n_invalido() {
    assert_eq!(encabezado(Some("45 tres")), Err(ErrorDeEntrada::NumeroInvalido));
    assert_eq!(encabezado(Some("45 -3")), Err(ErrorDeEntrada::NumeroInvalido));
    assert_eq!(encabezado(Some("45 3.0")), Err(ErrorDeEntrada::NumeroInvalido));
}

#[test]
fn parsear_flatlanders_ok() {
    let mut lineas = "0 10\n5 20\n".lines();
    let salida = flatlanders(&mut lineas, 2).unwrap();
    assert_eq!(salida.len(), 2);
    assert!((salida[0].0 - 0.0).abs() < 1e-12 && (salida[0].1 - 10.0).abs() < 1e-12);
    assert!((salida[1].0 - 5.0).abs() < 1e-12 && (salida[1].1 - 20.0).abs() < 1e-12);
}

#[test]
fn parsear_flatlanders_linea_faltante() {
    let mut lineas = "0 10\n".lines();
    assert_eq!(flatlanders(&mut lineas, 2), Err(ErrorDeEntrada::LineaFaltante));
}

#[test]
fn parsear_flatlanders_valor_faltante() {
    let mut lineas = "0\n".lines();
    assert_eq!(flatlanders(&mut lineas, 1), Err(ErrorDeEntrada::ValorFaltante));
}

#[test]
fn parsear_flatlanders_numero_invalido_en_x() {
    let mut lineas = "a 10\n".lines();
    assert_eq!(flatlanders(&mut lineas, 1), Err(ErrorDeEntrada::NumeroInvalido));
}

#[test]
fn parsear_flatlanders_numero_invalido_en_h() {
    let mut lineas = "0 a\n".lines();
    assert_eq!(flatlanders(&mut lineas, 1), Err(ErrorDeEntrada::NumeroInvalido));
}

#[test]
fn parsear_flatlanders_x_fuera_de_rango_alto() {
    let mut lineas = "300001 10\n".lines();
    assert_eq!(flatlanders(&mut lineas, 1), Err(ErrorDeEntrada::FueraDeRango));
}

#[test]
fn parsear_flatlanders_h_fuera_de_rango_bajo() {
    let mut lineas = "0 0\n".lines();
    assert_eq!(flatlanders(&mut lineas, 1), Err(ErrorDeEntrada::FueraDeRango));
}

#[test]
fn parsear_flatlanders_h_fuera_de_rango_alto() {
    let mut lineas = "0 1001\n".lines();
    assert_eq!(flatlanders(&mut lineas, 1), Err(ErrorDeEntrada::FueraDeRango));
}

#[test]
fn parsear_flatlanders_espacios_y_linea_en_blanco() {
    let mut lineas = "   0    10   \n5    20   \n\n".lines();
    let salida = flatlanders(&mut lineas, 2).unwrap();
    assert_eq!(salida.len(), 2);
    assert!((salida[0].0 - 0.0).abs() < 1e-12 && (salida[0].1 - 10.0).abs() < 1e-12);
    assert!((salida[1].0 - 5.0).abs() < 1e-12 && (salida[1].1 - 20.0).abs() < 1e-12);
}
