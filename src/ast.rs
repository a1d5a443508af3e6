use vstd::prelude::*;

verus! {

/// A lexical unit of a program.
#[derive(Debug, Clone, PartialEq)]
pub enum Token {
    Iniciar,
    Fin,
    Var,
    Mutar,
    Imprimir,
    Identificador(String),
    Numero(String),
    Operador(char),
    ParenAbre,
    ParenCierra,
    PuntoYComa,
    Coma,
    Texto(String),
    Cadena(String),
}

/// The mathematical form of a token: strings seen as character sequences.
pub enum Tok {
    Iniciar,
    Fin,
    Var,
    Mutar,
    Imprimir,
    Identificador(Seq<char>),
    Numero(Seq<char>),
    Operador(char),
    ParenAbre,
    ParenCierra,
    PuntoYComa,
    Coma,
    Texto(Seq<char>),
    Cadena(Seq<char>),
}

impl View for Token {
    type V = Tok;

    open spec fn view(&self) -> Tok {
        match self {
            Token::Iniciar => Tok::Iniciar,
            Token::Fin => Tok::Fin,
            Token::Var => Tok::Var,
            Token::Mutar => Tok::Mutar,
            Token::Imprimir => Tok::Imprimir,
            Token::Identificador(s) => Tok::Identificador(s@),
            Token::Numero(s) => Tok::Numero(s@),
            Token::Operador(c) => Tok::Operador(*c),
            Token::ParenAbre => Tok::ParenAbre,
            Token::ParenCierra => Tok::ParenCierra,
            Token::PuntoYComa => Tok::PuntoYComa,
            Token::Coma => Tok::Coma,
            Token::Texto(s) => Tok::Texto(s@),
            Token::Cadena(s) => Tok::Cadena(s@),
        }
    }
}

/// The token sequence seen as a sequence of mathematical tokens.
pub open spec fn vista_tokens(ts: Seq<Token>) -> Seq<Tok> {
    ts.map_values(|t: Token| t@)
}

/// A runtime value. A float is held as the bit pattern of an IEEE-754
/// binary64 number; its arithmetic is supplied through `Flotante`.
#[derive(Debug, Clone, PartialEq)]
pub enum Valor {
    Int(i64),
    Float(u64),
    Char(char),
    String(String),
}

pub enum Val {
    Int(i64),
    Float(u64),
    Char(char),
    Str(Seq<char>),
}

impl View for Valor {
    type V = Val;

    open spec fn view(&self) -> Val {
        match self {
            Valor::Int(i) => Val::Int(*i),
            Valor::Float(f) => Val::Float(*f),
            Valor::Char(c) => Val::Char(*c),
            Valor::String(s) => Val::Str(s@),
        }
    }
}

/// Binary arithmetic operators.
#[derive(Debug, Clone, Copy, PartialEq, Eq, Structural)]
pub enum Operador {
    Suma,
    Resta,
    Multiplicacion,
    Division,
    Modulo,
}

/// An expression tree; each node owns its children.
#[derive(Debug, PartialEq)]
pub enum Expresion {
    Valor(Valor),
    Variable(String),
    BinOp { izquierda: Box<Expresion>, operador: Operador, derecha: Box<Expresion> },
}

pub enum Expr {
    Valor(Val),
    Variable(Seq<char>),
    BinOp(Box<Expr>, Operador, Box<Expr>),
}

/// The mathematical form of an expression tree.
pub open spec fn vista_expr(e: &Expresion) -> Expr
    decreases e,
{
    match e {
        Expresion::Valor(v) => Expr::Valor(v@),
        Expresion::Variable(n) => Expr::Variable(n@),
        Expresion::BinOp { izquierda, operador, derecha } => Expr::BinOp(
            Box::new(vista_expr(izquierda)),
            *operador,
            Box::new(vista_expr(derecha)),
        ),
    }
}

impl View for Expresion {
    type V = Expr;

    open spec fn view(&self) -> Expr {
        vista_expr(self)
    }
}

/// A statement of a program.
#[derive(Debug, PartialEq)]
pub enum Instruccion {
    Var(String, Expresion),
    Mutar(String, Expresion),
    Imprimir(String),
}

pub enum Instr {
    Var(Seq<char>, Expr),
    Mutar(Seq<char>, Expr),
    Imprimir(Seq<char>),
}

impl View for Instruccion {
    type V = Instr;

    open spec fn view(&self) -> Instr {
        match self {
            Instruccion::Var(n, e) => Instr::Var(n@, e@),
            Instruccion::Mutar(n, e) => Instr::Mutar(n@, e@),
            Instruccion::Imprimir(t) => Instr::Imprimir(t@),
        }
    }
}

pub open spec fn vista_instrucciones(is: Seq<Instruccion>) -> Seq<Instr> {
    is.map_values(|i: Instruccion| i@)
}

} // verus!
