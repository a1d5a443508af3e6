use vstd::prelude::*;
use crate::ast::{Token, Tok, Valor, Val, Operador, Expresion, Expr, Instruccion, Instr, vista_tokens, vista_instrucciones};
use crate::flotante::Flotante;
use crate::texto::caracteres;

verus! {

/// Why a token sequence is not a program. Positions are token indices.
#[derive(Debug, Clone, Copy, PartialEq, Eq, Structural)]
pub enum ErrorSintaxis {
    InicioDuplicado,
    FinSinInicio,
    FinDuplicado,
    VarFueraDeBloque,
    MutarFueraDeBloque,
    ImprimirFueraDeBloque,
    ImprimirSinContenido,
    ImprimirSinTexto,
    TokenInesperado(usize),
    SinInicio,
    SinFin,
    DeclaracionIncompleta,
    FaltaIdentificador,
    DeclaracionSinIgual,
    FaltaIgual,
    FaltaPuntoYComa,
    ExpresionIncompleta,
    FaltaParentesis,
    TokenInesperadoEnExpresion(usize),
    NumeroInvalido(usize),
    OperadorDesconocido(char),
}

pub open spec fn es_digito(c: char) -> bool {
    '0' <= c && c <= '9'
}

pub open spec fn son_digitos(s: Seq<char>) -> bool {
    forall|i: int| 0 <= i < s.len() ==> es_digito(#[trigger] s[i])
}

/// The number written by a sequence of decimal digits.
pub open spec fn valor_decimal(s: Seq<char>) -> nat
    decreases s.len(),
{
    if s.len() == 0 {
        0
    } else {
        valor_decimal(s.drop_last()) * 10 + ((s.last() as u32 - '0' as u32) as nat)
    }
}

/// The signed 64-bit integer that a text denotes: an optional sign, then one
/// or more decimal digits, the value in range.
pub open spec fn entero_de(s: Seq<char>) -> Option<i64> {
    let neg = s.len() > 0 && s[0] == '-';
    let d = if s.len() > 0 && (s[0] == '-' || s[0] == '+') {
        s.skip(1)
    } else {
        s
    };
    let v: int = if neg {
        -valor_decimal(d)
    } else {
        valor_decimal(d) as int
    };
    if d.len() > 0 && son_digitos(d) && i64::MIN <= v <= i64::MAX {
        Some(v as i64)
    } else {
        None
    }
}

pub open spec fn precedencia(c: char) -> nat {
    if c == '+' || c == '-' {
        1
    } else if c == '*' || c == '/' || c == '%' {
        2
    } else {
        0
    }
}

pub open spec fn operador_de(c: char) -> Option<Operador> {
    if c == '+' {
        Some(Operador::Suma)
    } else if c == '-' {
        Some(Operador::Resta)
    } else if c == '*' {
        Some(Operador::Multiplicacion)
    } else if c == '/' {
        Some(Operador::Division)
    } else if c == '%' {
        Some(Operador::Modulo)
    } else {
        None
    }
}

/// A factor at `pos`: a number, a string, a variable or a parenthesised
/// expression. `fl[i]` is how the float reader read the numeric token at `i`
/// where that token is no integer.
pub open spec fn factor(t: Seq<Tok>, fl: Seq<Option<u64>>, pos: int) -> Result<
    (Expr, int),
    ErrorSintaxis,
>
    decreases t.len() - pos, 0int,
{
    if pos < 0 || pos >= t.len() {
        Err(ErrorSintaxis::ExpresionIncompleta)
    } else {
        match t[pos] {
            Tok::Numero(n) => match entero_de(n) {
                Some(i) => Ok((Expr::Valor(Val::Int(i)), pos + 1)),
                None => match fl[pos] {
                    Some(b) => Ok((Expr::Valor(Val::Float(b)), pos + 1)),
                    None => Err(ErrorSintaxis::NumeroInvalido(pos as usize)),
                },
            },
            Tok::Cadena(s) => Ok((Expr::Valor(Val::Str(s)), pos + 1)),
            Tok::Identificador(id) => Ok((Expr::Variable(id), pos + 1)),
            Tok::ParenAbre => match expresion(t, fl, pos + 1, 0) {
                Err(e) => Err(e),
                Ok((e, p)) => if p < t.len() && t[p] == Tok::ParenCierra {
                    Ok((e, p + 1))
                } else {
                    Err(ErrorSintaxis::FaltaParentesis)
                },
            },
            _ => Err(ErrorSintaxis::TokenInesperadoEnExpresion(pos as usize)),
        }
    }
}

/// An expression at `pos` whose operators bind at least as tightly as
/// `min`: a factor followed by what `resto` reads. Each step reads at least
/// one token; the tests on positions here and below only bound the
/// recursion.
pub open spec fn expresion(t: Seq<Tok>, fl: Seq<Option<u64>>, pos: int, min: nat) -> Result<
    (Expr, int),
    ErrorSintaxis,
>
    decreases t.len() - pos, 1int,
{
    match factor(t, fl, pos) {
        Err(e) => Err(e),
        Ok((izq, p)) => if pos < p <= t.len() {
            resto(t, fl, izq, p, min)
        } else {
            Err(ErrorSintaxis::ExpresionIncompleta)
        },
    }
}

/// Left-associative climbing: while the next token is an operator of
/// precedence at least `min`, it joins `izq` with the expression that
/// follows it, read at one precedence level higher.
pub open spec fn resto(t: Seq<Tok>, fl: Seq<Option<u64>>, izq: Expr, pos: int, min: nat) -> Result<
    (Expr, int),
    ErrorSintaxis,
>
    decreases t.len() - pos, 2int,
{
    if pos < 0 || pos >= t.len() {
        Ok((izq, pos))
    } else {
        match t[pos] {
            Tok::Operador(c) => if precedencia(c) < min {
                Ok((izq, pos))
            } else {
                match expresion(t, fl, pos + 1, precedencia(c) + 1) {
                    Err(e) => Err(e),
                    Ok((der, p)) => match operador_de(c) {
                        None => Err(ErrorSintaxis::OperadorDesconocido(c)),
                        Some(op) => if pos < p <= t.len() {
                            resto(t, fl, Expr::BinOp(Box::new(izq), op, Box::new(der)), p, min)
                        } else {
                            Err(ErrorSintaxis::ExpresionIncompleta)
                        },
                    },
                }
            },
            _ => Ok((izq, pos)),
        }
    }
}

/// `name = expression ;` at `pos`, after a `var` (`mutable == false`) or a
/// `mutar` keyword.
pub open spec fn declaracion(t: Seq<Tok>, fl: Seq<Option<u64>>, pos: int, mutable: bool) -> Result<
    (Instr, int),
    ErrorSintaxis,
> {
    if pos >= t.len() {
        Err(ErrorSintaxis::DeclaracionIncompleta)
    } else if !(t[pos] is Identificador) {
        Err(ErrorSintaxis::FaltaIdentificador)
    } else if pos + 1 >= t.len() {
        Err(ErrorSintaxis::DeclaracionSinIgual)
    } else if t[pos + 1] != Tok::Operador('=') {
        Err(ErrorSintaxis::FaltaIgual)
    } else {
        match expresion(t, fl, pos + 2, 0) {
            Err(e) => Err(e),
            Ok((e, p)) => if p < t.len() && t[p] == Tok::PuntoYComa {
                let id = t[pos]->Identificador_0;
                Ok((if mutable { Instr::Mutar(id, e) } else { Instr::Var(id, e) }, p + 1))
            } else {
                Err(ErrorSintaxis::FaltaPuntoYComa)
            },
        }
    }
}

/// The statements of `t[i..]`, scanned with the block flags `dentro`
/// (inside the block), `inicio` (start marker seen) and `fin` (end marker
/// seen).
pub open spec fn programa(
    t: Seq<Tok>,
    fl: Seq<Option<u64>>,
    i: int,
    dentro: bool,
    inicio: bool,
    fin: bool,
) -> Result<Seq<Instr>, ErrorSintaxis>
    decreases t.len() - i,
{
    if i < 0 || i >= t.len() {
        if !inicio {
            Err(ErrorSintaxis::SinInicio)
        } else if !fin {
            Err(ErrorSintaxis::SinFin)
        } else {
            Ok(seq![])
        }
    } else {
        match t[i] {
            Tok::Iniciar => if inicio {
                Err(ErrorSintaxis::InicioDuplicado)
            } else {
                programa(t, fl, i + 1, true, true, fin)
            },
            Tok::Fin => if !inicio {
                Err(ErrorSintaxis::FinSinInicio)
            } else if fin {
                Err(ErrorSintaxis::FinDuplicado)
            } else {
                programa(t, fl, i + 1, false, inicio, true)
            },
            Tok::Var | Tok::Mutar => if !dentro {
                if t[i] is Var {
                    Err(ErrorSintaxis::VarFueraDeBloque)
                } else {
                    Err(ErrorSintaxis::MutarFueraDeBloque)
                }
            } else {
                match declaracion(t, fl, i + 1, t[i] is Mutar) {
                    Err(e) => Err(e),
                    Ok((ins, p)) => if i < p <= t.len() {
                        match programa(t, fl, p, dentro, inicio, fin) {
                            Err(e) => Err(e),
                            Ok(r) => Ok(seq![ins] + r),
                        }
                    } else {
                        Err(ErrorSintaxis::DeclaracionIncompleta)
                    },
                }
            },
            Tok::Imprimir => if !dentro {
                Err(ErrorSintaxis::ImprimirFueraDeBloque)
            } else if i + 1 >= t.len() {
                Err(ErrorSintaxis::ImprimirSinContenido)
            } else {
                match t[i + 1] {
                    Tok::Texto(x) => match programa(t, fl, i + 2, dentro, inicio, fin) {
                        Err(e) => Err(e),
                        Ok(r) => Ok(seq![Instr::Imprimir(x)] + r),
                    },
                    _ => Err(ErrorSintaxis::ImprimirSinTexto),
                }
            },
            _ => Err(ErrorSintaxis::TokenInesperado(i as usize)),
        }
    }
}

/// What `parse` yields on `t`, given the float reader's outcomes `fl`.
pub open spec fn analizar(t: Seq<Tok>, fl: Seq<Option<u64>>) -> Result<Seq<Instr>, ErrorSintaxis> {
    programa(t, fl, 0, false, false, false)
}

pub open spec fn res_expr(r: Result<(Expresion, usize), ErrorSintaxis>) -> Result<(Expr, int), ErrorSintaxis> {
    match r {
        Ok((e, p)) => Ok((e@, p as int)),
        Err(x) => Err(x),
    }
}

pub open spec fn res_programa(r: Result<Vec<Instruccion>, ErrorSintaxis>) -> Result<Seq<Instr>, ErrorSintaxis> {
    match r {
        Ok(v) => Ok(vista_instrucciones(v@)),
        Err(x) => Err(x),
    }
}

proof fn lema_valor_prefijo(d: Seq<char>, k: int)
    requires
        0 <= k <= d.len(),
    ensures
        valor_decimal(d) >= valor_decimal(d.take(k)),
    decreases d.len(),
{
    if k < d.len() {
        lema_valor_prefijo(d.drop_last(), k);
        assert(d.drop_last().take(k) =~= d.take(k));
    } else {
        assert(d.take(k) =~= d);
    }
}

/// Reads a signed 64-bit integer as `str::parse::<i64>` does: an optional
/// sign, then decimal digits, in range.
pub fn entero_literal(texto: &str) -> (r: Option<i64>)
    ensures
        r == entero_de(texto@),
{
    let cs = caracteres(texto);
    let n = cs.len();
    let neg = n > 0 && cs[0] == '-';
    let mut inicio: usize = 0;
    if n > 0 && (cs[0] == '-' || cs[0] == '+') {
        inicio = 1;
    }
    let ghost s = texto@;
    let ghost d = if s.len() > 0 && (s[0] == '-' || s[0] == '+') {
        s.skip(1)
    } else {
        s
    };
    assert(d =~= cs@.skip(inicio as int));
    if inicio >= n {
        return None;
    }
    let mut acc: u128 = 0;
    let mut j: usize = inicio;
    while j < n
        invariant
            inicio <= j <= n,
            n == cs.len(),
            d == cs@.skip(inicio as int),
            s == texto@,
            cs@ == s,
            neg == (s.len() > 0 && s[0] == '-'),
            d == (if s.len() > 0 && (s[0] == '-' || s[0] == '+') {
                s.skip(1)
            } else {
                s
            }),
            acc == valor_decimal(d.take(j - inicio)),
            son_digitos(d.take(j - inicio)),
            acc <= 0x8000_0000_0000_0000,
        decreases n - j,
    {
        let c = cs[j];
        if !('0' <= c && c <= '9') {
            assert(!son_digitos(d)) by {
                assert(d[j - inicio] == c);
                assert(!es_digito(c));
            }
            return None;
        }
        let ghost k = j - inicio;
        assert(d.take(k + 1).drop_last() =~= d.take(k));
        acc = acc * 10 + ((c as u32 - '0' as u32) as u128);
        j += 1;
        assert(son_digitos(d.take(j - inicio))) by {
            assert forall|i: int| 0 <= i < d.take(j - inicio).len() implies es_digito(
                #[trigger] d.take(j - inicio)[i],
            ) by {
                if i < k {
                    assert(d.take(k)[i] == d.take(j - inicio)[i]);
                }
            }
        }
        if acc > 0x8000_0000_0000_0000 {
            proof {
                lema_valor_prefijo(d, j - inicio);
            }
            return None;
        }
    }
    assert(d.take(j - inicio) =~= d);
    if neg {
        Some((0i128 - acc as i128) as i64)
    } else if acc > 0x7fff_ffff_ffff_ffff {
        None
    } else {
        Some(acc as i64)
    }
}

/// Binding strength of an operator character.
pub fn get_precedencia(op: char) -> (r: usize)
    ensures
        r == precedencia(op),
{
    match op {
        '+' | '-' => 1,
        '*' | '/' | '%' => 2,
        _ => 0,
    }
}

fn parse_factor(tokens: &[Token], fl: &Vec<Option<u64>>, pos: usize) -> (r: Result<
    (Expresion, usize),
    ErrorSintaxis,
>)
    requires
        fl.len() == tokens.len(),
        pos <= tokens.len(),
    ensures
        res_expr(r) == factor(vista_tokens(tokens@), fl@, pos as int),
        r matches Ok((_, p)) ==> pos < p <= tokens.len(),
    decreases tokens.len() - pos, 0int,
{
    let ghost t = vista_tokens(tokens@);
    if pos >= tokens.len() {
        return Err(ErrorSintaxis::ExpresionIncompleta);
    }
    assert(t[pos as int] == tokens@[pos as int]@);
    match &tokens[pos] {
        Token::Numero(n) => {
            match entero_literal(n.as_str()) {
                Some(i) => Ok((Expresion::Valor(Valor::Int(i)), pos + 1)),
                None => match fl[pos] {
                    Some(b) => Ok((Expresion::Valor(Valor::Float(b)), pos + 1)),
                    None => Err(ErrorSintaxis::NumeroInvalido(pos)),
                },
            }
        },
        Token::Cadena(s) => Ok((Expresion::Valor(Valor::String(s.clone())), pos + 1)),
        Token::Identificador(id) => Ok((Expresion::Variable(id.clone()), pos + 1)),
        Token::ParenAbre => {
            let (expr, siguiente) = match parse_expresion(tokens, fl, pos + 1) {
                Ok(x) => x,
                Err(e) => {
                    return Err(e);
                },
            };
            if siguiente >= tokens.len() {
                return Err(ErrorSintaxis::FaltaParentesis);
            }
            assert(t[siguiente as int] == tokens@[siguiente as int]@);
            match &tokens[siguiente] {
                Token::ParenCierra => Ok((expr, siguiente + 1)),
                _ => Err(ErrorSintaxis::FaltaParentesis),
            }
        },
        _ => Err(ErrorSintaxis::TokenInesperadoEnExpresion(pos)),
    }
}

fn parse_expresion(tokens: &[Token], fl: &Vec<Option<u64>>, pos: usize) -> (r: Result<
    (Expresion, usize),
    ErrorSintaxis,
>)
    requires
        fl.len() == tokens.len(),
        pos <= tokens.len(),
    ensures
        res_expr(r) == expresion(vista_tokens(tokens@), fl@, pos as int, 0),
        r matches Ok((_, p)) ==> pos < p <= tokens.len(),
    decreases tokens.len() - pos, 2int,
{
    parse_expr_precedence(tokens, fl, pos, 0)
}

fn parse_expr_precedence(tokens: &[Token], fl: &Vec<Option<u64>>, pos: usize, min_prec: usize) -> (r:
    Result<(Expresion, usize), ErrorSintaxis>)
    requires
        fl.len() == tokens.len(),
        pos <= tokens.len(),
        min_prec <= 3,
    ensures
        res_expr(r) == expresion(vista_tokens(tokens@), fl@, pos as int, min_prec as nat),
        r matches Ok((_, p)) ==> pos < p <= tokens.len(),
    decreases tokens.len() - pos, 1int,
{
    let ghost t = vista_tokens(tokens@);
    let (mut izquierda, mut p) = match parse_factor(tokens, fl, pos) {
        Ok(x) => x,
        Err(e) => {
            return Err(e);
        },
    };
    loop
        invariant
            fl.len() == tokens.len(),
            t == vista_tokens(tokens@),
            pos < p <= tokens.len(),
            min_prec <= 3,
            expresion(t, fl@, pos as int, min_prec as nat) == resto(
                t,
                fl@,
                izquierda@,
                p as int,
                min_prec as nat,
            ),
        decreases tokens.len() - p,
    {
        if p >= tokens.len() {
            return Ok((izquierda, p));
        }
        assert(t[p as int] == tokens@[p as int]@);
        let op = match &tokens[p] {
            Token::Operador(c) => *c,
            _ => {
                return Ok((izquierda, p));
            },
        };
        let prec = get_precedencia(op);
        if prec < min_prec {
            return Ok((izquierda, p));
        }
        let (derecha, siguiente) = match parse_expr_precedence(tokens, fl, p + 1, prec + 1) {
            Ok(x) => x,
            Err(e) => {
                return Err(e);
            },
        };
        let operador = match op {
            '+' => Operador::Suma,
            '-' => Operador::Resta,
            '*' => Operador::Multiplicacion,
            '/' => Operador::Division,
            '%' => Operador::Modulo,
            _ => {
                return Err(ErrorSintaxis::OperadorDesconocido(op));
            },
        };
        izquierda = Expresion::BinOp {
            izquierda: Box::new(izquierda),
            operador,
            derecha: Box::new(derecha),
        };
        p = siguiente;
    }
}

pub open spec fn res_decl(r: Result<(Instruccion, usize), ErrorSintaxis>) -> Result<(Instr, int), ErrorSintaxis> {
    match r {
        Ok((i, p)) => Ok((i@, p as int)),
        Err(x) => Err(x),
    }
}

fn parse_declaracion_var_mutar(tokens: &[Token], fl: &Vec<Option<u64>>, pos: usize, mutable: bool) -> (r:
    Result<(Instruccion, usize), ErrorSintaxis>)
    requires
        fl.len() == tokens.len(),
        pos <= tokens.len(),
    ensures
        res_decl(r) == declaracion(vista_tokens(tokens@), fl@, pos as int, mutable),
        r matches Ok((_, p)) ==> pos < p <= tokens.len(),
{
    let ghost t = vista_tokens(tokens@);
    if pos >= tokens.len() {
        return Err(ErrorSintaxis::DeclaracionIncompleta);
    }
    assert(t[pos as int] == tokens@[pos as int]@);
    let nombre = match &tokens[pos] {
        Token::Identificador(id) => id.clone(),
        _ => {
            return Err(ErrorSintaxis::FaltaIdentificador);
        },
    };
    if pos + 1 >= tokens.len() {
        return Err(ErrorSintaxis::DeclaracionSinIgual);
    }
    assert(t[pos + 1] == tokens@[pos + 1]@);
    match &tokens[pos + 1] {
        Token::Operador('=') => {},
        _ => {
            return Err(ErrorSintaxis::FaltaIgual);
        },
    }
    let (expr, siguiente) = match parse_expresion(tokens, fl, pos + 2) {
        Ok(x) => x,
        Err(e) => {
            return Err(e);
        },
    };
    if siguiente >= tokens.len() {
        return Err(ErrorSintaxis::FaltaPuntoYComa);
    }
    assert(t[siguiente as int] == tokens@[siguiente as int]@);
    match &tokens[siguiente] {
        Token::PuntoYComa => {},
        _ => {
            return Err(ErrorSintaxis::FaltaPuntoYComa);
        },
    }
    let instruccion = if mutable {
        Instruccion::Mutar(nombre, expr)
    } else {
        Instruccion::Var(nombre, expr)
    };
    Ok((instruccion, siguiente + 1))
}

/// Parses a token sequence into the program's statements, where `fl[i]`
/// holds what the float reader made of the numeric token at `i` when that
/// token is no integer (and is not read otherwise).
pub fn parse_con_flotantes(tokens: &[Token], fl: &Vec<Option<u64>>) -> (r: Result<
    Vec<Instruccion>,
    ErrorSintaxis,
>)
    requires
        fl.len() == tokens.len(),
    ensures
        res_programa(r) == analizar(vista_tokens(tokens@), fl@),
{
    let ghost t = vista_tokens(tokens@);
    let mut instrucciones: Vec<Instruccion> = Vec::new();
    let mut dentro_bloque = false;
    let mut inicio_encontrado = false;
    let mut fin_encontrado = false;
    let mut i: usize = 0;
    while i < tokens.len()
        invariant
            fl.len() == tokens.len(),
            t == vista_tokens(tokens@),
            i <= tokens.len(),
            analizar(t, fl@) == match programa(
                t,
                fl@,
                i as int,
                dentro_bloque,
                inicio_encontrado,
                fin_encontrado,
            ) {
                Ok(r) => Ok(vista_instrucciones(instrucciones@) + r),
                Err(e) => Err(e),
            },
        decreases tokens.len() - i,
    {
        assert(t[i as int] == tokens@[i as int]@);
        let ghost antes = vista_instrucciones(instrucciones@);
        match &tokens[i] {
            Token::Iniciar => {
                if inicio_encontrado {
                    return Err(ErrorSintaxis::InicioDuplicado);
                }
                inicio_encontrado = true;
                dentro_bloque = true;
                i += 1;
            },
            Token::Fin => {
                if !inicio_encontrado {
                    return Err(ErrorSintaxis::FinSinInicio);
                }
                if fin_encontrado {
                    return Err(ErrorSintaxis::FinDuplicado);
                }
                fin_encontrado = true;
                dentro_bloque = false;
                i += 1;
            },
            Token::Var | Token::Mutar => {
                let mutable = match &tokens[i] {
                    Token::Mutar => true,
                    _ => false,
                };
                if !dentro_bloque {
                    if mutable {
                        return Err(ErrorSintaxis::MutarFueraDeBloque);
                    } else {
                        return Err(ErrorSintaxis::VarFueraDeBloque);
                    }
                }
                let (inst, fin) = match parse_declaracion_var_mutar(tokens, fl, i + 1, mutable) {
                    Ok(x) => x,
                    Err(e) => {
                        return Err(e);
                    },
                };
                let ghost vi = inst@;
                instrucciones.push(inst);
                proof {
                    assert(vista_instrucciones(instrucciones@) =~= antes.push(vi));
                    match programa(t, fl@, fin as int, dentro_bloque, inicio_encontrado, fin_encontrado) {
                        Ok(r) => {
                            assert(antes.push(vi) + r =~= antes + (seq![vi] + r));
                        },
                        Err(_) => {},
                    }
                }
                i = fin;
            },
            Token::Imprimir => {
                if !dentro_bloque {
                    return Err(ErrorSintaxis::ImprimirFueraDeBloque);
                }
                if i + 1 >= tokens.len() {
                    return Err(ErrorSintaxis::ImprimirSinContenido);
                }
                assert(t[i + 1] == tokens@[i + 1]@);
                match &tokens[i + 1] {
                    Token::Texto(texto) => {
                        let inst = Instruccion::Imprimir(texto.clone());
                        let ghost vi = inst@;
                        instrucciones.push(inst);
                        proof {
                            assert(vista_instrucciones(instrucciones@) =~= antes.push(vi));
                            match programa(
                                t,
                                fl@,
                                i + 2,
                                dentro_bloque,
                                inicio_encontrado,
                                fin_encontrado,
                            ) {
                                Ok(r) => {
                                    assert(antes.push(vi) + r =~= antes + (seq![vi] + r));
                                },
                                Err(_) => {},
                            }
                        }
                        i += 2;
                    },
                    _ => {
                        return Err(ErrorSintaxis::ImprimirSinTexto);
                    },
                }
            },
            _ => {
                return Err(ErrorSintaxis::TokenInesperado(i));
            },
        }
    }
    if !inicio_encontrado {
        return Err(ErrorSintaxis::SinInicio);
    }
    if !fin_encontrado {
        return Err(ErrorSintaxis::SinFin);
    }
    assert(vista_instrucciones(instrucciones@) + seq![] =~= vista_instrucciones(instrucciones@));
    Ok(instrucciones)
}

/// Parses a token sequence into the program's statements. A numeric token
/// is read as an integer where it is one, and only otherwise handed to the
/// float reader `F`.
pub fn parse<F: Flotante>(tokens: &[Token]) -> (r: Result<Vec<Instruccion>, ErrorSintaxis>)
    ensures
        exists|fl: Seq<Option<u64>>|
            fl.len() == tokens.len() && res_programa(r) == #[trigger] analizar(
                vista_tokens(tokens@),
                fl,
            ),
{
    let mut fl: Vec<Option<u64>> = Vec::new();
    let mut i: usize = 0;
    while i < tokens.len()
        invariant
            i <= tokens.len(),
            fl.len() == i,
        decreases tokens.len() - i,
    {
        let leido = match &tokens[i] {
            Token::Numero(n) => match entero_literal(n.as_str()) {
                Some(_) => None,
                None => F::desde_texto(n.as_str()),
            },
            _ => None,
        };
        fl.push(leido);
        i += 1;
    }
    let r = parse_con_flotantes(tokens, &fl);
    assert(fl@.len() == tokens.len() && res_programa(r) == analizar(vista_tokens(tokens@), fl@));
    r
}

} // verus!
