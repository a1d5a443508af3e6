use vstd::prelude::*;
use vstd::string::StringExecFns;
use crate::ast::{Valor, Val, Operador, Expresion, Expr, Instruccion, Instr, vista_expr, vista_instrucciones};
use crate::flotante::{Flotante, es_cero, es_cero_spec};
use crate::lexer::{recortar, indice_de, copiar, inicio_sin_espacio, fin_sin_espacio, buscar};
use crate::texto::{caracteres, texto_de, empujar};

verus! {

/// Why an expression has no value.
#[derive(Debug, Clone, Copy, PartialEq, Eq, Structural)]
pub enum ErrorEvaluacion {
    VariableNoDefinida,
    SumaNoSoportada,
    RestaNoSoportada,
    MultiplicacionNoSoportada,
    DivisionNoSoportada,
    DivisionPorCero,
    ModuloPorCero,
    ModuloSoloEnteros,
    /// An integer result falls outside the signed 64-bit range.
    Desbordamiento,
}

pub open spec fn es_numero(v: Val) -> bool {
    v is Int || v is Float
}

pub open spec fn entero_o_desborde(r: Option<i64>) -> Result<Val, ErrorEvaluacion> {
    match r {
        Some(z) => Ok(Val::Int(z)),
        None => Err(ErrorEvaluacion::Desbordamiento),
    }
}

/// Whether `r` is an outcome of `a op b`. Integers stay integers (but for
/// division), a mix with a float gives a float, strings concatenate under
/// `Suma`; the value of a float result comes from the float arithmetic.
pub open spec fn operacion(op: Operador, a: Val, b: Val, r: Result<Val, ErrorEvaluacion>) -> bool {
    match op {
        Operador::Suma => match (a, b) {
            (Val::Int(x), Val::Int(y)) => r == entero_o_desborde(x.checked_add(y)),
            (Val::Str(x), Val::Str(y)) => r == Ok::<Val, ErrorEvaluacion>(Val::Str(x + y)),
            _ => if es_numero(a) && es_numero(b) {
                r matches Ok(Val::Float(_))
            } else {
                r == Err::<Val, ErrorEvaluacion>(ErrorEvaluacion::SumaNoSoportada)
            },
        },
        Operador::Resta => match (a, b) {
            (Val::Int(x), Val::Int(y)) => r == entero_o_desborde(x.checked_sub(y)),
            _ => if es_numero(a) && es_numero(b) {
                r matches Ok(Val::Float(_))
            } else {
                r == Err::<Val, ErrorEvaluacion>(ErrorEvaluacion::RestaNoSoportada)
            },
        },
        Operador::Multiplicacion => match (a, b) {
            (Val::Int(x), Val::Int(y)) => r == entero_o_desborde(x.checked_mul(y)),
            _ => if es_numero(a) && es_numero(b) {
                r matches Ok(Val::Float(_))
            } else {
                r == Err::<Val, ErrorEvaluacion>(ErrorEvaluacion::MultiplicacionNoSoportada)
            },
        },
        Operador::Division => if (b matches Val::Int(y) && y == 0) || (b matches Val::Float(y)
            && es_cero_spec(y)) {
            r == Err::<Val, ErrorEvaluacion>(ErrorEvaluacion::DivisionPorCero)
        } else if es_numero(a) && es_numero(b) {
            r matches Ok(Val::Float(_))
        } else {
            r == Err::<Val, ErrorEvaluacion>(ErrorEvaluacion::DivisionNoSoportada)
        },
        Operador::Modulo => match (a, b) {
            (Val::Int(x), Val::Int(y)) => if y == 0 {
                r == Err::<Val, ErrorEvaluacion>(ErrorEvaluacion::ModuloPorCero)
            } else {
                r == entero_o_desborde(x.checked_rem(y))
            },
            _ => r == Err::<Val, ErrorEvaluacion>(ErrorEvaluacion::ModuloSoloEnteros),
        },
    }
}

pub open spec fn res_val(r: Result<Valor, ErrorEvaluacion>) -> Result<Val, ErrorEvaluacion> {
    match r {
        Ok(v) => Ok(v@),
        Err(e) => Err(e),
    }
}

fn copiar_valor(v: &Valor) -> (r: Valor)
    ensures
        r@ == v@,
{
    match v {
        Valor::Int(i) => Valor::Int(*i),
        Valor::Float(f) => Valor::Float(*f),
        Valor::Char(c) => Valor::Char(*c),
        Valor::String(s) => Valor::String(s.clone()),
    }
}

/// Applies an operator to two values.
pub fn operar<F: Flotante>(a: &Valor, op: Operador, b: &Valor) -> (r: Result<Valor, ErrorEvaluacion>)
    ensures
        operacion(op, a@, b@, res_val(r)),
{
    match op {
        Operador::Suma => operar_sumar::<F>(a, b),
        Operador::Resta => operar_restar::<F>(a, b),
        Operador::Multiplicacion => operar_multiplicar::<F>(a, b),
        Operador::Division => operar_dividir::<F>(a, b),
        Operador::Modulo => operar_modulo(a, b),
    }
}

fn operar_sumar<F: Flotante>(a: &Valor, b: &Valor) -> (r: Result<Valor, ErrorEvaluacion>)
    ensures
        operacion(Operador::Suma, a@, b@, res_val(r)),
{
    match (a, b) {
        (Valor::Int(x), Valor::Int(y)) => match x.checked_add(*y) {
            Some(z) => Ok(Valor::Int(z)),
            None => Err(ErrorEvaluacion::Desbordamiento),
        },
        (Valor::String(x), Valor::String(y)) => {
            let mut s = x.clone();
            s.append(y.as_str());
            Ok(Valor::String(s))
        },
        _ => operar_flotantes::<F>(a, Operador::Suma, b, ErrorEvaluacion::SumaNoSoportada),
    }
}

fn operar_restar<F: Flotante>(a: &Valor, b: &Valor) -> (r: Result<Valor, ErrorEvaluacion>)
    ensures
        operacion(Operador::Resta, a@, b@, res_val(r)),
{
    match (a, b) {
        (Valor::Int(x), Valor::Int(y)) => match x.checked_sub(*y) {
            Some(z) => Ok(Valor::Int(z)),
            None => Err(ErrorEvaluacion::Desbordamiento),
        },
        _ => operar_flotantes::<F>(a, Operador::Resta, b, ErrorEvaluacion::RestaNoSoportada),
    }
}

fn operar_multiplicar<F: Flotante>(a: &Valor, b: &Valor) -> (r: Result<Valor, ErrorEvaluacion>)
    ensures
        operacion(Operador::Multiplicacion, a@, b@, res_val(r)),
{
    match (a, b) {
        (Valor::Int(x), Valor::Int(y)) => match x.checked_mul(*y) {
            Some(z) => Ok(Valor::Int(z)),
            None => Err(ErrorEvaluacion::Desbordamiento),
        },
        _ => operar_flotantes::<F>(
            a,
            Operador::Multiplicacion,
            b,
            ErrorEvaluacion::MultiplicacionNoSoportada,
        ),
    }
}

fn operar_dividir<F: Flotante>(a: &Valor, b: &Valor) -> (r: Result<Valor, ErrorEvaluacion>)
    ensures
        operacion(Operador::Division, a@, b@, res_val(r)),
{
    let cero = match b {
        Valor::Int(y) => *y == 0,
        Valor::Float(y) => es_cero(*y),
        _ => false,
    };
    if cero {
        return Err(ErrorEvaluacion::DivisionPorCero);
    }
    match (a, b) {
        (Valor::Int(x), Valor::Int(y)) => Ok(
            Valor::Float(F::operar(Operador::Division, F::desde_entero(*x), F::desde_entero(*y))),
        ),
        _ => operar_flotantes::<F>(a, Operador::Division, b, ErrorEvaluacion::DivisionNoSoportada),
    }
}

fn operar_modulo(a: &Valor, b: &Valor) -> (r: Result<Valor, ErrorEvaluacion>)
    ensures
        operacion(Operador::Modulo, a@, b@, res_val(r)),
{
    match (a, b) {
        (Valor::Int(x), Valor::Int(y)) => if *y == 0 {
            Err(ErrorEvaluacion::ModuloPorCero)
        } else {
            match x.checked_rem(*y) {
                Some(z) => Ok(Valor::Int(z)),
                None => Err(ErrorEvaluacion::Desbordamiento),
            }
        },
        _ => Err(ErrorEvaluacion::ModuloSoloEnteros),
    }
}

/// A float operation on two numbers of which at least one is a float
/// (integers widen); `error` where one of them is no number.
fn operar_flotantes<F: Flotante>(a: &Valor, op: Operador, b: &Valor, error: ErrorEvaluacion) -> (r:
    Result<Valor, ErrorEvaluacion>)
    ensures
        if es_numero(a@) && es_numero(b@) {
            r matches Ok(Valor::Float(_))
        } else {
            r == Err::<Valor, ErrorEvaluacion>(error)
        },
{
    let x = match a {
        Valor::Int(i) => F::desde_entero(*i),
        Valor::Float(f) => *f,
        _ => {
            return Err(error);
        },
    };
    let y = match b {
        Valor::Int(i) => F::desde_entero(*i),
        Valor::Float(f) => *f,
        _ => {
            return Err(error);
        },
    };
    Ok(Valor::Float(F::operar(op, x, y)))
}

// ---- environment -------------------------------------------------------------

/// The variables of a run: each name with its value and whether `mutar` may
/// change it.
pub type Vars = Map<Seq<char>, (Val, bool)>;

pub struct Variable {
    nombre: String,
    valor: Valor,
    mutable: bool,
}

/// The variable bindings of a run. A later binding of a name shadows an
/// earlier one.
pub struct Entorno {
    variables: Vec<Variable>,
}

pub open spec fn mapa_de(vs: Seq<(Seq<char>, Val, bool)>) -> Vars
    decreases vs.len(),
{
    if vs.len() == 0 {
        Map::empty()
    } else {
        let u = vs.last();
        mapa_de(vs.drop_last()).insert(u.0, (u.1, u.2))
    }
}

impl Entorno {
    pub closed spec fn ligaduras(&self) -> Seq<(Seq<char>, Val, bool)> {
        self.variables@.map_values(|v: Variable| (v.nombre@, v.valor@, v.mutable))
    }

    pub closed spec fn view(&self) -> Vars {
        mapa_de(self.ligaduras())
    }

    /// An environment with no variable.
    pub fn new() -> (r: Entorno)
        ensures
            r.view() == Map::<Seq<char>, (Val, bool)>::empty(),
    {
        let r = Entorno { variables: Vec::new() };
        assert(r.ligaduras() =~= seq![]);
        r
    }

    /// The value and mutability of a variable, if it is bound.
    pub fn consultar(&self, nombre: &String) -> (r: Option<(Valor, bool)>)
        ensures
            match r {
                Some((v, m)) => self.view().contains_key(nombre@) && self.view()[nombre@] == (
                    v@,
                    m,
                ),
                None => !self.view().contains_key(nombre@),
            },
    {
        let ghost l = self.ligaduras();
        assert(l.take(l.len() as int) =~= l);
        let mut i: usize = self.variables.len();
        while i > 0
            invariant
                i <= self.variables.len(),
                l == self.ligaduras(),
                l.len() == self.variables.len(),
                mapa_de(l).contains_key(nombre@) == mapa_de(l.take(i as int)).contains_key(
                    nombre@,
                ),
                mapa_de(l).contains_key(nombre@) ==> mapa_de(l)[nombre@] == mapa_de(
                    l.take(i as int),
                )[nombre@],
            decreases i,
        {
            assert(l.take(i as int).drop_last() =~= l.take(i - 1));
            assert(l[i - 1] == (
                self.variables@[i - 1].nombre@,
                self.variables@[i - 1].valor@,
                self.variables@[i - 1].mutable,
            ));
            let v = &self.variables[i - 1];
            if v.nombre == *nombre {
                return Some((copiar_valor(&v.valor), v.mutable));
            }
            i -= 1;
        }
        assert(l.take(0) =~= seq![]);
        None
    }

    /// Binds `nombre` to `valor`, replacing any earlier binding.
    pub fn asignar(&mut self, nombre: String, valor: Valor, mutable: bool)
        ensures
            final(self).view() == old(self).view().insert(nombre@, (valor@, mutable)),
    {
        let ghost antes = self.ligaduras();
        let ghost u = (nombre@, valor@, mutable);
        self.variables.push(Variable { nombre, valor, mutable });
        assert(self.ligaduras() =~= antes.push(u));
        assert(self.ligaduras().drop_last() =~= antes);
    }
}

// ---- evaluation --------------------------------------------------------------

/// Holds of every outcome; it names the outcomes that the quantifiers below
/// range over, so that a proof can point at one.
pub open spec fn resultado(r: Result<Val, ErrorEvaluacion>) -> bool {
    true
}

/// Whether `r` is an outcome of evaluating `e` against `env`: operands are
/// evaluated left first, and the first failure is the result.
pub open spec fn evaluacion(e: Expr, env: Vars, r: Result<Val, ErrorEvaluacion>) -> bool
    decreases e,
{
    match e {
        Expr::Valor(v) => r == Ok::<Val, ErrorEvaluacion>(v),
        Expr::Variable(n) => r == if env.contains_key(n) {
            Ok::<Val, ErrorEvaluacion>(env[n].0)
        } else {
            Err(ErrorEvaluacion::VariableNoDefinida)
        },
        Expr::BinOp(l, op, d) => exists|a: Result<Val, ErrorEvaluacion>|
            #[trigger] resultado(a) && evaluacion(*l, env, a) && match a {
                Err(x) => r == Err::<Val, ErrorEvaluacion>(x),
                Ok(va) => exists|b: Result<Val, ErrorEvaluacion>|
                    #[trigger] resultado(b) && evaluacion(*d, env, b) && match b {
                        Err(x) => r == Err::<Val, ErrorEvaluacion>(x),
                        Ok(vb) => operacion(op, va, vb, r),
                    },
            },
    }
}

/// Evaluates an expression against the variables of `vars`.
pub fn evaluar_expr<F: Flotante>(expr: &Expresion, vars: &Entorno) -> (r: Result<Valor, ErrorEvaluacion>)
    ensures
        evaluacion(expr@, vars.view(), res_val(r)),
    decreases expr,
{
    match expr {
        Expresion::Valor(v) => Ok(copiar_valor(v)),
        Expresion::Variable(nombre) => match vars.consultar(nombre) {
            Some((v, _)) => Ok(v),
            None => Err(ErrorEvaluacion::VariableNoDefinida),
        },
        Expresion::BinOp { izquierda, operador, derecha } => {
            let ghost el = vista_expr(izquierda);
            let ghost ed = vista_expr(derecha);
            assert(expr@ == Expr::BinOp(Box::new(el), *operador, Box::new(ed)));
            let a = evaluar_expr::<F>(izquierda, vars);
            assert(evaluacion(el, vars.view(), res_val(a)));
            assert(evaluacion(*expr@->BinOp_0, vars.view(), res_val(a)));
            assert(resultado(res_val(a)));
            let va = match a {
                Ok(v) => v,
                Err(x) => {
                    return Err(x);
                },
            };
            let b = evaluar_expr::<F>(derecha, vars);
            assert(evaluacion(ed, vars.view(), res_val(b)));
            assert(evaluacion(*expr@->BinOp_2, vars.view(), res_val(b)));
            assert(resultado(res_val(b)));
            let vb = match b {
                Ok(v) => v,
                Err(x) => {
                    return Err(x);
                },
            };
            operar::<F>(&va, *operador, &vb)
        },
    }
}

// ---- text of values and printing -------------------------------------------

pub open spec fn cifra(d: nat) -> char {
    if d == 0 {
        '0'
    } else if d == 1 {
        '1'
    } else if d == 2 {
        '2'
    } else if d == 3 {
        '3'
    } else if d == 4 {
        '4'
    } else if d == 5 {
        '5'
    } else if d == 6 {
        '6'
    } else if d == 7 {
        '7'
    } else if d == 8 {
        '8'
    } else {
        '9'
    }
}

/// The decimal digits of a natural number, without leading zeros.
pub open spec fn digitos(n: nat) -> Seq<char>
    decreases n,
{
    if n < 10 {
        seq![cifra(n)]
    } else {
        digitos(n / 10).push(cifra(n % 10))
    }
}

/// The decimal text of an integer: a `-` before the digits of a negative one.
pub open spec fn decimal(x: i64) -> Seq<char> {
    if x < 0 {
        seq!['-'] + digitos((-(x as int)) as nat)
    } else {
        digitos(x as nat)
    }
}

fn cifra_de(d: u64) -> (r: char)
    requires
        d < 10,
    ensures
        r == cifra(d as nat),
{
    match d {
        0 => '0',
        1 => '1',
        2 => '2',
        3 => '3',
        4 => '4',
        5 => '5',
        6 => '6',
        7 => '7',
        8 => '8',
        _ => '9',
    }
}

/// Appends the decimal digits of `n` to `s`.
fn escribir_digitos(n: u64, s: &mut String)
    ensures
        final(s)@ == old(s)@ + digitos(n as nat),
    decreases n,
{
    if n >= 10 {
        escribir_digitos(n / 10, s);
    }
    let ghost antes = s@;
    empujar(s, cifra_de(n % 10));
    assert(old(s)@ + digitos(n as nat) =~= antes.push(cifra((n % 10) as nat)));
}

/// The decimal text of an integer.
fn texto_entero(x: i64) -> (r: String)
    ensures
        r@ == decimal(x),
{
    let mut s = String::new();
    if x < 0 {
        empujar(&mut s, '-');
        let m = (0i128 - x as i128) as u64;
        escribir_digitos(m, &mut s);
    } else {
        escribir_digitos(x as u64, &mut s);
        assert(s@ =~= decimal(x));
    }
    s
}

/// Whether `t` is the text of `v`: decimal digits for an integer, the
/// character, the string itself; a float's text comes from the float
/// arithmetic.
pub open spec fn texto_valor(v: Val, t: Seq<char>) -> bool {
    match v {
        Val::Int(i) => t == decimal(i),
        Val::Float(_) => true,
        Val::Char(c) => t == seq![c],
        Val::Str(s) => t == s,
    }
}

/// The text of a value.
pub fn valor_a_string<F: Flotante>(v: &Valor) -> (r: String)
    ensures
        texto_valor(v@, r@),
{
    match v {
        Valor::Int(i) => texto_entero(*i),
        Valor::Float(f) => F::a_texto(*f),
        Valor::Char(c) => {
            let mut s = String::new();
            empujar(&mut s, *c);
            assert(s@ =~= seq![*c]);
            s
        },
        Valor::String(s) => s.clone(),
    }
}

/// What a `{name}` placeholder becomes: the text of the variable's value,
/// or `{name?}` where the name is unbound.
pub open spec fn pieza(n: Seq<char>, env: Vars, p: Seq<char>) -> bool {
    if env.contains_key(n) {
        texto_valor(env[n].0, p)
    } else {
        p == seq!['{'] + n + seq!['?', '}']
    }
}

/// Holds of every text; it names the texts that the quantifiers below range
/// over.
pub open spec fn texto_marca(p: Seq<char>) -> bool {
    true
}

/// Whether `out` is `s[i..]` with each `{name}` placeholder replaced by its
/// piece; a `{` that is never closed takes the rest of the text as name.
pub open spec fn interpolacion(s: Seq<char>, i: int, env: Vars, out: Seq<char>) -> bool
    decreases s.len() - i,
{
    if i < 0 || i >= s.len() {
        out == Seq::<char>::empty()
    } else if s[i] == '{' {
        let k = match indice_de(s, '}', i + 1) {
            Some(k) => k,
            None => s.len() as int,
        };
        let sig = if k < s.len() {
            k + 1
        } else {
            k
        };
        if i < sig <= s.len() {
            exists|p: Seq<char>|
                #[trigger] texto_marca(p) && pieza(s.subrange(i + 1, k), env, p) && out.len()
                    >= p.len() && out.take(p.len() as int) == p && interpolacion(
                    s,
                    sig,
                    env,
                    out.skip(p.len() as int),
                )
        } else {
            false
        }
    } else {
        out.len() > 0 && out[0] == s[i] && interpolacion(s, i + 1, env, out.skip(1))
    }
}

/// Replaces the `{name}` placeholders of `s`.
fn expandir_variables<F: Flotante>(s: &Vec<char>, vars: &Entorno) -> (r: String)
    ensures
        interpolacion(s@, 0, vars.view(), r@),
{
    let ghost env = vars.view();
    let mut out = String::new();
    let mut i: usize = 0;
    while i < s.len()
        invariant
            i <= s.len(),
            env == vars.view(),
            forall|rest: Seq<char>|
                #[trigger] interpolacion(s@, i as int, env, rest) ==> interpolacion(
                    s@,
                    0,
                    env,
                    out@ + rest,
                ),
        decreases s.len() - i,
    {
        let c = s[i];
        if c == '{' {
            let ghost gi = i as int;
            let cierre = buscar(s, '}', i + 1);
            let k = match cierre {
                Some(k) => k,
                None => s.len(),
            };
            let sig = if k < s.len() {
                k + 1
            } else {
                k
            };
            let nombre = texto_de(s, i + 1, k);
            let p = match vars.consultar(&nombre) {
                Some((v, _)) => valor_a_string::<F>(&v),
                None => {
                    let mut q = String::new();
                    empujar(&mut q, '{');
                    q.append(nombre.as_str());
                    empujar(&mut q, '?');
                    empujar(&mut q, '}');
                    assert(q@ =~= seq!['{'] + nombre@ + seq!['?', '}']);
                    q
                },
            };
            let ghost antes = out@;
            out.append(p.as_str());
            assert forall|rest: Seq<char>| #[trigger]
                interpolacion(s@, sig as int, env, rest) implies interpolacion(
                s@,
                0,
                env,
                out@ + rest,
            ) by {
                let full = p@ + rest;
                assert(full.take(p@.len() as int) =~= p@);
                assert(full.skip(p@.len() as int) =~= rest);
                assert(texto_marca(p@));
                assert(interpolacion(s@, gi, env, full));
                assert(antes + full =~= out@ + rest);
            }
            i = sig;
        } else {
            let ghost antes = out@;
            empujar(&mut out, c);
            assert forall|rest: Seq<char>| #[trigger]
                interpolacion(s@, i + 1, env, rest) implies interpolacion(
                s@,
                0,
                env,
                out@ + rest,
            ) by {
                let full = seq![c] + rest;
                assert(full.skip(1) =~= rest);
                assert(interpolacion(s@, i as int, env, full));
                assert(antes + full =~= out@ + rest);
            }
            i += 1;
        }
    }
    assert(interpolacion(s@, i as int, env, Seq::<char>::empty()));
    assert(out@ + Seq::<char>::empty() =~= out@);
    out
}

/// Whether `out` is what printing the raw text `x` writes: a quoted text
/// with its placeholders replaced; else the value of the variable that the
/// text names; else the text itself (all after trimming).
pub open spec fn impresion(x: Seq<char>, env: Vars, out: Seq<char>) -> bool {
    let t = recortar(x);
    if t.len() >= 2 && t[0] == '"' && t[t.len() - 1] == '"' {
        interpolacion(t.subrange(1, t.len() - 1), 0, env, out)
    } else if env.contains_key(t) {
        texto_valor(env[t].0, out)
    } else {
        out == t
    }
}

/// The line that a print statement with raw text `texto` writes.
pub fn imprimir<F: Flotante>(texto: &String, vars: &Entorno) -> (r: String)
    ensures
        impresion(texto@, vars.view(), r@),
{
    let cs = caracteres(texto.as_str());
    let a = inicio_sin_espacio(&cs);
    let b = fin_sin_espacio(&cs, a, cs.len());
    let t = copiar(&cs, a, b);
    if t.len() >= 2 && t[0] == '"' && t[t.len() - 1] == '"' {
        let interior = copiar(&t, 1, t.len() - 1);
        expandir_variables::<F>(&interior, vars)
    } else {
        let nombre = texto_de(&t, 0, t.len());
        assert(t@.subrange(0, t@.len() as int) =~= t@);
        match vars.consultar(&nombre) {
            Some((v, _)) => valor_a_string::<F>(&v),
            None => nombre,
        }
    }
}

// ---- statements --------------------------------------------------------------

/// What running a statement reports: a printed line, or an error that
/// skips the statement.
#[derive(Debug, Clone, PartialEq)]
pub enum Evento {
    Salida(String),
    YaDeclarada(String),
    Inmutable(String),
    FalloEvaluacion(String, ErrorEvaluacion),
}

pub enum Ev {
    Salida(Seq<char>),
    YaDeclarada(Seq<char>),
    Inmutable(Seq<char>),
    FalloEvaluacion(Seq<char>, ErrorEvaluacion),
}

impl View for Evento {
    type V = Ev;

    open spec fn view(&self) -> Ev {
        match self {
            Evento::Salida(s) => Ev::Salida(s@),
            Evento::YaDeclarada(n) => Ev::YaDeclarada(n@),
            Evento::Inmutable(n) => Ev::Inmutable(n@),
            Evento::FalloEvaluacion(n, e) => Ev::FalloEvaluacion(n@, *e),
        }
    }
}

pub open spec fn vista_eventos(evs: Seq<Evento>) -> Seq<Ev> {
    evs.map_values(|e: Evento| e@)
}

/// A declaration of `n` whose expression gave `r`: a value is bound, an
/// error is reported and nothing is bound.
pub open spec fn declarado(n: Seq<char>, r: Result<Val, ErrorEvaluacion>, mutable: bool, env: Vars, evs: Seq<Ev>, envf: Vars) -> bool {
    match r {
        Ok(v) => evs == Seq::<Ev>::empty() && envf == env.insert(n, (v, mutable)),
        Err(x) => evs == seq![Ev::FalloEvaluacion(n, x)] && envf == env,
    }
}

/// Whether running `i` on `env` may report `evs` and leave `envf`. `var`
/// binds an unbound name for good; `mutar` binds an unbound name or
/// changes a mutable one; `imprimir` writes one line.
pub open spec fn paso(i: Instr, env: Vars, evs: Seq<Ev>, envf: Vars) -> bool {
    match i {
        Instr::Var(n, e) => if env.contains_key(n) {
            evs == seq![Ev::YaDeclarada(n)] && envf == env
        } else {
            exists|r: Result<Val, ErrorEvaluacion>|
                #[trigger] resultado(r) && evaluacion(e, env, r) && declarado(n, r, false, env, evs, envf)
        },
        Instr::Mutar(n, e) => if env.contains_key(n) && !env[n].1 {
            evs == seq![Ev::Inmutable(n)] && envf == env
        } else {
            exists|r: Result<Val, ErrorEvaluacion>|
                #[trigger] resultado(r) && evaluacion(e, env, r) && declarado(n, r, true, env, evs, envf)
        },
        Instr::Imprimir(x) => envf == env && exists|o: Seq<char>|
            #[trigger] texto_marca(o) && impresion(x, env, o) && evs == seq![Ev::Salida(o)],
    }
}

/// Holds of every intermediate state of a run; it names the states that
/// `ejecucion` ranges over.
pub open spec fn estado_marca(evs: Seq<Ev>, env: Vars) -> bool {
    true
}

/// Whether running the statements `is` in order from `env0` may report
/// `evs` and leave `envf`.
pub open spec fn ejecucion(is: Seq<Instr>, env0: Vars, evs: Seq<Ev>, envf: Vars) -> bool
    decreases is.len(),
{
    if is.len() == 0 {
        evs == Seq::<Ev>::empty() && envf == env0
    } else {
        exists|m: Seq<Ev>, e: Vars|
            #[trigger] estado_marca(m, e) && ejecucion(is.drop_last(), env0, m, e) && evs.len()
                >= m.len() && evs.take(m.len() as int) == m && paso(
                is.last(),
                e,
                evs.skip(m.len() as int),
                envf,
            )
    }
}

/// Runs one statement, appending what it reports to `eventos`.
fn ejecutar_instruccion<F: Flotante>(ins: &Instruccion, vars: &mut Entorno, eventos: &mut Vec<Evento>)
    ensures
        vista_eventos(final(eventos)@).len() >= vista_eventos(old(eventos)@).len(),
        vista_eventos(final(eventos)@).take(vista_eventos(old(eventos)@).len() as int)
            == vista_eventos(old(eventos)@),
        paso(
            ins@,
            old(vars).view(),
            vista_eventos(final(eventos)@).skip(vista_eventos(old(eventos)@).len() as int),
            final(vars).view(),
        ),
{
    let ghost antes = vista_eventos(eventos@);
    match ins {
        Instruccion::Var(nombre, expr) | Instruccion::Mutar(nombre, expr) => {
            let mutable = match ins {
                Instruccion::Mutar(_, _) => true,
                _ => false,
            };
            let previo = vars.consultar(nombre);
            let ev = match previo {
                Some((_, m)) => {
                    if !mutable {
                        Some(Evento::YaDeclarada(nombre.clone()))
                    } else if !m {
                        Some(Evento::Inmutable(nombre.clone()))
                    } else {
                        None
                    }
                },
                None => None,
            };
            match ev {
                Some(e) => {
                    eventos.push(e);
                    assert(vista_eventos(eventos@) =~= antes.push(e@));
                    assert(antes.push(e@).skip(antes.len() as int) =~= seq![e@]);
                    assert(antes.push(e@).take(antes.len() as int) =~= antes);
                },
                None => {
                    let r = evaluar_expr::<F>(expr, vars);
                    assert(resultado(res_val(r)));
                    match r {
                        Ok(v) => {
                            vars.asignar(nombre.clone(), v, mutable);
                            assert(antes.skip(antes.len() as int) =~= Seq::<Ev>::empty());
                            assert(antes.take(antes.len() as int) =~= antes);
                        },
                        Err(x) => {
                            let e = Evento::FalloEvaluacion(nombre.clone(), x);
                            eventos.push(e);
                            assert(vista_eventos(eventos@) =~= antes.push(e@));
                            assert(antes.push(e@).skip(antes.len() as int) =~= seq![e@]);
                            assert(antes.push(e@).take(antes.len() as int) =~= antes);
                        },
                    }
                },
            }
        },
        Instruccion::Imprimir(texto) => {
            let linea = imprimir::<F>(texto, vars);
            assert(texto_marca(linea@));
            let e = Evento::Salida(linea);
            eventos.push(e);
            assert(vista_eventos(eventos@) =~= antes.push(e@));
            assert(antes.push(e@).skip(antes.len() as int) =~= seq![e@]);
            assert(antes.push(e@).take(antes.len() as int) =~= antes);
        },
    }
}

/// Runs the statements in order against `vars`; errors in a statement are
/// reported and the run goes on with the next one.
pub fn ejecutar<F: Flotante>(instrucciones: &[Instruccion], vars: &mut Entorno) -> (r: Vec<Evento>)
    ensures
        ejecucion(vista_instrucciones(instrucciones@), old(vars).view(), vista_eventos(r@), final(vars).view()),
{
    let ghost is = vista_instrucciones(instrucciones@);
    let ghost env0 = vars.view();
    let mut eventos: Vec<Evento> = Vec::new();
    let mut i: usize = 0;
    assert(is.take(0) =~= Seq::<Instr>::empty());
    assert(vista_eventos(eventos@) =~= Seq::<Ev>::empty());
    while i < instrucciones.len()
        invariant
            i <= instrucciones.len(),
            is == vista_instrucciones(instrucciones@),
            env0 == old(vars).view(),
            ejecucion(is.take(i as int), env0, vista_eventos(eventos@), vars.view()),
        decreases instrucciones.len() - i,
    {
        let ghost m = vista_eventos(eventos@);
        let ghost e = vars.view();
        ejecutar_instruccion::<F>(&instrucciones[i], vars, &mut eventos);
        proof {
            assert(estado_marca(m, e));
            assert(is.take(i + 1).drop_last() =~= is.take(i as int));
            assert(is.take(i + 1).last() == instrucciones@[i as int]@);
        }
        i += 1;
    }
    assert(is.take(instrucciones.len() as int) =~= is);
    eventos
}

/// Runs a program from an empty environment and yields what it reports,
/// in order.
pub fn run<F: Flotante>(instrucciones: &[Instruccion]) -> (r: Vec<Evento>)
    ensures
        exists|envf: Vars|
            ejecucion(
                vista_instrucciones(instrucciones@),
                Map::<Seq<char>, (Val, bool)>::empty(),
                vista_eventos(r@),
                envf,
            ),
{
    let mut vars = Entorno::new();
    let r = ejecutar::<F>(instrucciones, &mut vars);
    assert(ejecucion(
        vista_instrucciones(instrucciones@),
        Map::<Seq<char>, (Val, bool)>::empty(),
        vista_eventos(r@),
        vars.view(),
    ));
    r
}

} // verus!
