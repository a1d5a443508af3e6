use roulang::ast::{Expresion, Instruccion, Operador, Token, Valor};
use roulang::flotante::Flotante;
use roulang::interpreter::{run, ErrorEvaluacion, Evento};
use roulang::lexer::tokenize;
use roulang::parser::{parse, ErrorSintaxis};

struct F64;

impl Flotante for F64 {
    fn desde_texto(texto: &str) -> Option<u64> {
        texto.parse::<f64>().ok().map(|f| f.to_bits())
    }

    fn desde_entero(x: i64) -> u64 {
        (x as f64).to_bits()
    }

    fn operar(op: Operador, a: u64, b: u64) -> u64 {
        let (a, b) = (f64::from_bits(a), f64::from_bits(b));
        let r = match op {
            Operador::Suma => a + b,
            Operador::Resta => a - b,
            Operador::Multiplicacion => a * b,
            _ => a / b,
        };
        r.to_bits()
    }

    fn a_texto(x: u64) -> String {
        f64::from_bits(x).to_string()
    }
}

fn programa(cuerpo: &str) -> String {
    format!("iniciar</>\n{}\n</>\n", cuerpo)
}

fn correr(fuente: &str) -> Vec<Evento> {
    let tokens = tokenize(fuente).expect("lexer");
    let instrucciones = parse::<F64>(&tokens).expect("parser");
    run::<F64>(&instrucciones)
}

fn salidas(eventos: &[Evento]) -> Vec<String> {
    eventos
        .iter()
        .filter_map(|e| match e {
            Evento::Salida(s) => Some(s.clone()),
            _ => None,
        })
        .collect()
}

#[test]
fn multiplicacion_antes_que_suma() {
    let ev = correr(&programa("var x = 2 + 3 * 4;\nimprimir(x)"));
    assert_eq!(ev, vec![Evento::Salida("14".to_string())]);
}

#[test]
fn resta_asocia_a_la_izquierda() {
    let ev = correr(&programa("var x = 10 - 3 - 2;\nimprimir(x)"));
    assert_eq!(ev, vec![Evento::Salida("5".to_string())]);
}

#[test]
fn division_da_flotante() {
    let tokens = tokenize(&programa("var x = 4 / 2;")).unwrap();
    let instrucciones = parse::<F64>(&tokens).unwrap();
    let ev = run::<F64>(&instrucciones);
    assert!(ev.is_empty());
    let ev = correr(&programa("var x = 4 / 2;\nimprimir(x)"));
    assert_eq!(salidas(&ev), vec!["2".to_string()]);
    let ev = correr(&programa("var x = 7 / 2;\nimprimir(x)"));
    assert_eq!(salidas(&ev), vec!["3.5".to_string()]);
}

#[test]
fn division_por_cero_se_informa() {
    let ev = correr(&programa("var y = 5 / 0;\nimprimir(y)\nimprimir(\"sigue\")"));
    assert_eq!(
        ev,
        vec![
            Evento::FalloEvaluacion("y".to_string(), ErrorEvaluacion::DivisionPorCero),
            Evento::Salida("y".to_string()),
            Evento::Salida("sigue".to_string()),
        ]
    );
    let ev = correr(&programa("var y = 5 / 0.0;"));
    assert_eq!(ev, vec![Evento::FalloEvaluacion("y".to_string(), ErrorEvaluacion::DivisionPorCero)]);
}

#[test]
fn mutar_sobre_inmutable_se_rechaza() {
    let ev = correr(&programa("var x = 1;\nmutar x = 2;\nimprimir(x)"));
    assert_eq!(ev, vec![Evento::Inmutable("x".to_string()), Evento::Salida("1".to_string())]);
}

#[test]
fn mutar_dos_veces_cambia_el_valor() {
    let ev = correr(&programa("mutar y = 1;\nmutar y = 2;\nimprimir(y)"));
    assert_eq!(ev, vec![Evento::Salida("2".to_string())]);
}

#[test]
fn var_dos_veces_ya_declarada() {
    let ev = correr(&programa("var z = 1;\nvar z = 2;\nimprimir(z)"));
    assert_eq!(ev, vec![Evento::YaDeclarada("z".to_string()), Evento::Salida("1".to_string())]);
    let ev = correr(&programa("mutar w = 1;\nvar w = 2;"));
    assert_eq!(ev, vec![Evento::YaDeclarada("w".to_string())]);
}

#[test]
fn interpolacion_de_variables() {
    let ev = correr(&programa(
        "mutar nombre = \"Ana\";\nimprimir(\"Hola {nombre}\")\nimprimir(\"Hola {missing}\")",
    ));
    assert_eq!(salidas(&ev), vec!["Hola Ana".to_string(), "Hola {missing?}".to_string()]);
}

#[test]
fn interpolacion_llave_sin_cerrar_y_numeros() {
    let ev = correr(&programa("var n = 3;\nimprimir(\"n={n}, m={m\")"));
    assert_eq!(salidas(&ev), vec!["n=3, m={m?}".to_string()]);
}

#[test]
fn imprimir_texto_sin_variable() {
    let ev = correr(&programa("imprimir(  hola  )"));
    assert_eq!(salidas(&ev), vec!["hola".to_string()]);
}

#[test]
fn falta_inicio() {
    let tokens = tokenize("var x = 1;\n</>\n").unwrap();
    assert_eq!(parse::<F64>(&tokens), Err(ErrorSintaxis::VarFueraDeBloque));
    let tokens = tokenize("imprimir(x)\n").unwrap();
    assert_eq!(parse::<F64>(&tokens), Err(ErrorSintaxis::ImprimirFueraDeBloque));
    let tokens = tokenize("# solo un comentario\n").unwrap();
    assert_eq!(parse::<F64>(&tokens), Err(ErrorSintaxis::SinInicio));
    let tokens = tokenize("</>\n").unwrap();
    assert_eq!(parse::<F64>(&tokens), Err(ErrorSintaxis::FinSinInicio));
}

#[test]
fn falta_fin() {
    let tokens = tokenize("iniciar</>\nvar x = 1;\n").unwrap();
    assert_eq!(parse::<F64>(&tokens), Err(ErrorSintaxis::SinFin));
}

#[test]
fn inicio_duplicado() {
    let tokens = tokenize("iniciar</>\niniciar</>\n</>\n").unwrap();
    assert_eq!(parse::<F64>(&tokens), Err(ErrorSintaxis::InicioDuplicado));
    let tokens = tokenize("iniciar</>\n</>\n</>\n").unwrap();
    assert_eq!(parse::<F64>(&tokens), Err(ErrorSintaxis::FinDuplicado));
}

#[test]
fn literal_entero_y_flotante() {
    let tokens = vec![
        Token::Iniciar,
        Token::Var,
        Token::Identificador("a".to_string()),
        Token::Operador('='),
        Token::Numero("3".to_string()),
        Token::PuntoYComa,
        Token::Mutar,
        Token::Identificador("b".to_string()),
        Token::Operador('='),
        Token::Numero("3.5".to_string()),
        Token::PuntoYComa,
        Token::Fin,
    ];
    let r = parse::<F64>(&tokens).unwrap();
    assert_eq!(
        r,
        vec![
            Instruccion::Var("a".to_string(), Expresion::Valor(Valor::Int(3))),
            Instruccion::Mutar("b".to_string(), Expresion::Valor(Valor::Float(3.5f64.to_bits()))),
        ]
    );
}

#[test]
fn numero_invalido() {
    let tokens = vec![
        Token::Iniciar,
        Token::Var,
        Token::Identificador("a".to_string()),
        Token::Operador('='),
        Token::Numero("x1".to_string()),
        Token::PuntoYComa,
        Token::Fin,
    ];
    assert_eq!(parse::<F64>(&tokens), Err(ErrorSintaxis::NumeroInvalido(4)));
}

#[test]
fn orden_de_instrucciones() {
    let fuente = programa("var a = 1;\nimprimir(a)\nmutar b = a + 1;\nimprimir(\"{b}\")");
    let tokens = tokenize(&fuente).unwrap();
    let r = parse::<F64>(&tokens).unwrap();
    assert_eq!(r.len(), 4);
    assert!(matches!(&r[0], Instruccion::Var(n, _) if n == "a"));
    assert_eq!(r[1], Instruccion::Imprimir("a".to_string()));
    assert!(matches!(&r[2], Instruccion::Mutar(n, _) if n == "b"));
    assert_eq!(r[3], Instruccion::Imprimir("\"{b}\"".to_string()));
    assert_eq!(salidas(&run::<F64>(&r)), vec!["1".to_string(), "2".to_string()]);
}

#[test]
fn parentesis_cambian_precedencia() {
    let ev = correr(&programa("var x = (2 + 3) * 4;\nimprimir(x)"));
    assert_eq!(salidas(&ev), vec!["20".to_string()]);
}

#[test]
fn errores_de_declaracion() {
    let casos: Vec<(&str, ErrorSintaxis)> = vec![
        ("var x = 1", ErrorSintaxis::FaltaPuntoYComa),
        ("var x 1;", ErrorSintaxis::FaltaIgual),
        ("var 1 = 1;", ErrorSintaxis::FaltaIdentificador),
        ("var x = (1 + 2;", ErrorSintaxis::FaltaParentesis),
        ("var x = ;", ErrorSintaxis::TokenInesperadoEnExpresion(4)),
        ("var x = 1 = 2;", ErrorSintaxis::OperadorDesconocido('=')),
    ];
    for (linea, error) in casos {
        let tokens = tokenize(&programa(linea)).unwrap();
        assert_eq!(parse::<F64>(&tokens), Err(error), "{}", linea);
    }
    let tokens = vec![Token::Iniciar, Token::Var];
    assert_eq!(parse::<F64>(&tokens), Err(ErrorSintaxis::DeclaracionIncompleta));
    let tokens = vec![Token::Iniciar, Token::Var, Token::Identificador("x".to_string())];
    assert_eq!(parse::<F64>(&tokens), Err(ErrorSintaxis::DeclaracionSinIgual));
    let tokens = vec![Token::Iniciar, Token::Imprimir];
    assert_eq!(parse::<F64>(&tokens), Err(ErrorSintaxis::ImprimirSinContenido));
    let tokens = vec![Token::Iniciar, Token::Imprimir, Token::Coma];
    assert_eq!(parse::<F64>(&tokens), Err(ErrorSintaxis::ImprimirSinTexto));
    let tokens = vec![Token::Iniciar, Token::Coma];
    assert_eq!(parse::<F64>(&tokens), Err(ErrorSintaxis::TokenInesperado(1)));
    let tokens = vec![Token::Iniciar, Token::Var, Token::Identificador("x".to_string()), Token::Operador('=')];
    assert_eq!(parse::<F64>(&tokens), Err(ErrorSintaxis::ExpresionIncompleta));
}

#[test]
fn operaciones_entre_tipos() {
    let ev = correr(&programa(
        "var a = \"ab\" + \"cd\";\nimprimir(a)\nvar b = 7 % 3;\nimprimir(b)\nvar c = 1 + 0.5;\nimprimir(c)\nvar d = 2.5 * 2;\nimprimir(d)\nvar e = 1 - 0.5;\nimprimir(e)",
    ));
    assert_eq!(
        salidas(&ev),
        vec!["abcd".to_string(), "1".to_string(), "1.5".to_string(), "5".to_string(), "0.5".to_string()]
    );
}

#[test]
fn errores_de_evaluacion() {
    let ev = correr(&programa(
        "var a = \"x\" - 1;\nvar b = 5 % 0;\nvar c = 5.5 % 2;\nvar d = \"x\" * 2;\nvar e = \"x\" / 2;\nvar f = \"x\" + 1;\nvar g = nada + 1;\nvar h = 9223372036854775807 + 1;",
    ));
    let n = |s: &str| s.to_string();
    assert_eq!(
        ev,
        vec![
            Evento::FalloEvaluacion(n("a"), ErrorEvaluacion::RestaNoSoportada),
            Evento::FalloEvaluacion(n("b"), ErrorEvaluacion::ModuloPorCero),
            Evento::FalloEvaluacion(n("c"), ErrorEvaluacion::ModuloSoloEnteros),
            Evento::FalloEvaluacion(n("d"), ErrorEvaluacion::MultiplicacionNoSoportada),
            Evento::FalloEvaluacion(n("e"), ErrorEvaluacion::DivisionNoSoportada),
            Evento::FalloEvaluacion(n("f"), ErrorEvaluacion::SumaNoSoportada),
            Evento::FalloEvaluacion(n("g"), ErrorEvaluacion::VariableNoDefinida),
            Evento::FalloEvaluacion(n("h"), ErrorEvaluacion::Desbordamiento),
        ]
    );
}

#[test]
fn enteros_negativos_se_imprimen_con_signo() {
    let ev = correr(&programa("var a = 3 - 45;\nimprimir(\"a={a}\")"));
    assert_eq!(salidas(&ev), vec!["a=-42".to_string()]);
}

#[test]
fn dos_inicios_nunca_son_programa() {
    assert_eq!(
        parse::<F64>(&[Token::Iniciar, Token::Iniciar, Token::Fin]),
        Err(ErrorSintaxis::InicioDuplicado)
    );
    let tokens = tokenize(&format!("{}{}", programa("var a = 1;"), "iniciar</>\n")).unwrap();
    assert_eq!(parse::<F64>(&tokens), Err(ErrorSintaxis::InicioDuplicado));
}

#[test]
fn extremos_enteros_se_imprimen() {
    let ev = correr(&programa(
        "var a = 0 - 9223372036854775807 - 1;\nimprimir(a)\nvar b = 9223372036854775807;\nimprimir(b)\nvar c = 0;\nimprimir(c)",
    ));
    assert_eq!(
        salidas(&ev),
        vec!["-9223372036854775808".to_string(), "9223372036854775807".to_string(), "0".to_string()]
    );
}
