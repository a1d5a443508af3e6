use roulang::ast::{Token, Valor};
use roulang::flotante::es_cero;
use roulang::interpreter::Entorno;
use roulang::lexer::{tokenize, ErrorLexico};
use roulang::parser::{entero_literal, get_precedencia};
use roulang::texto::{caracteres, texto_de};

fn id(s: &str) -> Token {
    Token::Identificador(s.to_string())
}

#[test]
fn tokens_de_una_declaracion() {
    let r = tokenize("iniciar</>\nvar x_1 = (2.5 + y) * 3;\n</>").unwrap();
    assert_eq!(
        r,
        vec![
            Token::Iniciar,
            Token::Var,
            id("x_1"),
            Token::Operador('='),
            Token::ParenAbre,
            Token::Numero("2.5".to_string()),
            Token::Operador('+'),
            id("y"),
            Token::ParenCierra,
            Token::Operador('*'),
            Token::Numero("3".to_string()),
            Token::PuntoYComa,
            Token::Fin,
        ]
    );
}

#[test]
fn comentarios_y_espacios() {
    let fuente = "  iniciar</>  \r\n# linea entera\n\n#/ abre\nesto no cuenta\ncierra #/\n#/ una sola linea #/\nmutar a = \"h\"; # fin\n\t</>\n";
    let r = tokenize(fuente);
    assert_eq!(
        r,
        Ok(vec![
            Token::Iniciar,
            Token::Mutar,
            id("a"),
            Token::Operador('='),
            Token::Cadena("h".to_string()),
            Token::PuntoYComa,
            Token::Fin,
        ])
    );
}

#[test]
fn almohadilla_dentro_de_cadena_corta_la_linea() {
    let r = tokenize("iniciar</>\n\nmutar a = \"h, #\";\n</>");
    assert_eq!(r, Err(ErrorLexico::CadenaNoCerrada(3)));
}

#[test]
fn comentario_multilinea_abierto_hasta_el_final() {
    let r = tokenize("iniciar</>\n#/ abre\nvar x = 1;\n</>\n");
    assert_eq!(r, Ok(vec![Token::Iniciar]));
    let r = tokenize("#/ abre\nvar x = 1;\n#/\niniciar</>");
    assert_eq!(r, Ok(vec![Token::Iniciar]));
}

#[test]
fn marca_sola_es_comentario_de_una_linea() {
    let r = tokenize("#/\niniciar</>\n#/\n</>");
    assert_eq!(r, Ok(vec![Token::Iniciar, Token::Fin]));
}

#[test]
fn imprimir_toma_el_parentesis_que_cierra() {
    let r = tokenize("imprimir((a))").unwrap();
    assert_eq!(r, vec![Token::Imprimir, Token::Texto("(a)".to_string())]);
    let r = tokenize("imprimir(f(x) y) # (").unwrap();
    assert_eq!(r, vec![Token::Imprimir, Token::Texto("f(x) y".to_string())]);
    assert_eq!(tokenize("imprimir((a)"), Err(ErrorLexico::ImprimirSinCierre(1)));
}

#[test]
fn espacios_unicode_se_recortan() {
    let r = tokenize("\u{3000}\u{a0}iniciar</>\u{2009}\n\u{85}</>").unwrap();
    assert_eq!(r, vec![Token::Iniciar, Token::Fin]);
}

#[test]
fn comentario_de_linea_corta_la_expresion() {
    let r = tokenize("var a = 1; # var b = 2;").unwrap();
    assert_eq!(
        r,
        vec![Token::Var, id("a"), Token::Operador('='), Token::Numero("1".to_string()), Token::PuntoYComa]
    );
}

#[test]
fn imprimir_guarda_el_texto_crudo() {
    let r = tokenize("imprimir( \"Hola {x}\" )").unwrap();
    assert_eq!(r, vec![Token::Imprimir, Token::Texto(" \"Hola {x}\" ".to_string())]);
}

#[test]
fn errores_lexicos() {
    assert_eq!(tokenize("iniciar</>\nimprimir(hola"), Err(ErrorLexico::ImprimirSinCierre(2)));
    assert_eq!(tokenize("\n\nvar s = \"abc;"), Err(ErrorLexico::CadenaNoCerrada(3)));
    assert_eq!(tokenize("var s = 1 & 2;"), Err(ErrorLexico::CaracterNoReconocido(1, '&')));
    assert_eq!(tokenize("iniciar</>\n\nsi x = 1;"), Err(ErrorLexico::LineaDesconocida(3)));
    assert_eq!(tokenize("variable = 1;"), Err(ErrorLexico::LineaDesconocida(1)));
}

#[test]
fn texto_vacio_no_da_tokens() {
    assert_eq!(tokenize(""), Ok(vec![]));
    assert_eq!(tokenize("\n\n   \n"), Ok(vec![]));
}

#[test]
fn identificadores_unicode_y_puntos() {
    let r = tokenize("mutar ñandú2 = 1.2;").unwrap();
    assert_eq!(
        r,
        vec![Token::Mutar, id("ñandú2"), Token::Operador('='), Token::Numero("1.2".to_string()), Token::PuntoYComa]
    );
    assert_eq!(tokenize("mutar x = 1.2.3;"), Err(ErrorLexico::CaracterNoReconocido(1, '.')));
    assert_eq!(tokenize("var s = 12."), Ok(vec![Token::Var, id("s"), Token::Operador('='), Token::Numero("12.".to_string())]));
}

#[test]
fn precedencias() {
    assert_eq!(get_precedencia('+'), 1);
    assert_eq!(get_precedencia('-'), 1);
    assert_eq!(get_precedencia('*'), 2);
    assert_eq!(get_precedencia('/'), 2);
    assert_eq!(get_precedencia('%'), 2);
    assert_eq!(get_precedencia('='), 0);
}

#[test]
fn lectura_de_enteros() {
    assert_eq!(entero_literal("3"), Some(3));
    assert_eq!(entero_literal("+5"), Some(5));
    assert_eq!(entero_literal("-12"), Some(-12));
    assert_eq!(entero_literal("9223372036854775807"), Some(i64::MAX));
    assert_eq!(entero_literal("-9223372036854775808"), Some(i64::MIN));
    assert_eq!(entero_literal("9223372036854775808"), None);
    assert_eq!(entero_literal("3.5"), None);
    assert_eq!(entero_literal(""), None);
    assert_eq!(entero_literal("-"), None);
    assert_eq!(entero_literal("1a"), None);
}

#[test]
fn cero_flotante() {
    assert!(es_cero(0.0f64.to_bits()));
    assert!(es_cero((-0.0f64).to_bits()));
    assert!(!es_cero(1.0f64.to_bits()));
    assert!(!es_cero(f64::MIN_POSITIVE.to_bits()));
}

#[test]
fn texto_y_caracteres() {
    let v = caracteres("añb");
    assert_eq!(v, vec!['a', 'ñ', 'b']);
    assert_eq!(texto_de(&v, 1, 3), "ñb".to_string());
}

#[test]
fn entorno_consulta_y_asigna() {
    let mut e = Entorno::new();
    assert!(e.consultar(&"x".to_string()).is_none());
    e.asignar("x".to_string(), Valor::Int(1), false);
    e.asignar("x".to_string(), Valor::Int(2), true);
    assert_eq!(e.consultar(&"x".to_string()), Some((Valor::Int(2), true)));
    assert!(e.consultar(&"y".to_string()).is_none());
}

#[test]
fn textos_unidos_dan_tokens_en_orden() {
    let a = "iniciar</>\nvar x = 1; # uno";
    let b = "imprimir(x)\n</>";
    let mut juntos = tokenize(a).unwrap();
    juntos.extend(tokenize(b).unwrap());
    assert_eq!(tokenize(&format!("{}\n{}", a, b)).unwrap(), juntos);
}
