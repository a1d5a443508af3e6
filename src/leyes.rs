use vstd::prelude::*;
use crate::ast::{Tok, Val, Expr, Instr, Operador};
use crate::interpreter::{Vars, Ev, ErrorEvaluacion, operacion, paso, ejecucion, estado_marca, resultado, evaluacion, declarado};
use crate::lexer::{ErrorLexico, fragmento, tokens_linea, lexar, tokenizar, fin_linea, comentario_tras_linea, recortar, sin_comentario, es_espacio, es_alfabetico, fin_identificador, digito, fin_numero, indice_de, es_simbolo};
use crate::parser::{programa, analizar, factor, expresion, resto, declaracion, entero_de, precedencia, operador_de, ErrorSintaxis};

verus! {

/// Whether token `t` is the keyword that opens statement `i`, and names the
/// same variable or text.
pub open spec fn origen(t: Seq<Tok>, p: int, i: Instr) -> bool {
    match i {
        Instr::Var(n, _) => t[p] == Tok::Var && p + 1 < t.len() && t[p + 1] == Tok::Identificador(n),
        Instr::Mutar(n, _) => t[p] == Tok::Mutar && p + 1 < t.len() && t[p + 1]
            == Tok::Identificador(n),
        Instr::Imprimir(x) => t[p] == Tok::Imprimir && p + 1 < t.len() && t[p + 1] == Tok::Texto(x),
    }
}

pub open spec fn posiciones_en_orden(t: Seq<Tok>, desde: int, r: Seq<Instr>, pos: Seq<int>) -> bool {
    &&& pos.len() == r.len()
    &&& forall|k: int, j: int| 0 <= k < j < pos.len() ==> pos[k] < pos[j]
    &&& forall|k: int|
        0 <= k < pos.len() ==> desde <= #[trigger] pos[k] < t.len() && origen(t, pos[k], r[k])
}

proof fn lema_orden(
    t: Seq<Tok>,
    fl: Seq<Option<u64>>,
    i: int,
    dentro: bool,
    inicio: bool,
    fin: bool,
)
    requires
        0 <= i,
        programa(t, fl, i, dentro, inicio, fin) is Ok,
    ensures
        exists|pos: Seq<int>|
            #[trigger] posiciones_en_orden(t, i, programa(t, fl, i, dentro, inicio, fin)->Ok_0, pos),
    decreases t.len() - i,
{
    let r = programa(t, fl, i, dentro, inicio, fin)->Ok_0;
    if i >= t.len() {
        assert(posiciones_en_orden(t, i, r, Seq::<int>::empty()));
    } else {
        match t[i] {
            Tok::Iniciar => {
                lema_orden(t, fl, i + 1, true, true, fin);
                let pos = choose|pos: Seq<int>|
                    #[trigger] posiciones_en_orden(t, i + 1, programa(t, fl, i + 1, true, true, fin)->Ok_0, pos);
                assert(posiciones_en_orden(t, i, r, pos));
            },
            Tok::Fin => {
                lema_orden(t, fl, i + 1, false, inicio, true);
                let pos = choose|pos: Seq<int>|
                    #[trigger] posiciones_en_orden(t, i + 1, programa(t, fl, i + 1, false, inicio, true)->Ok_0, pos);
                assert(posiciones_en_orden(t, i, r, pos));
            },
            Tok::Var | Tok::Mutar => {
                let (ins, p) = crate::parser::declaracion(t, fl, i + 1, t[i] is Mutar)->Ok_0;
                lema_orden(t, fl, p, dentro, inicio, fin);
                let resto = programa(t, fl, p, dentro, inicio, fin)->Ok_0;
                let pos2 = choose|pos: Seq<int>| #[trigger] posiciones_en_orden(t, p, resto, pos);
                let pos = seq![i] + pos2;
                assert(r == seq![ins] + resto);
                assert(posiciones_en_orden(t, i, r, pos)) by {
                    assert forall|k: int|
                        0 <= k < pos.len() implies i <= #[trigger] pos[k] < t.len() && origen(
                        t,
                        pos[k],
                        r[k],
                    ) by {
                        if k > 0 {
                            assert(pos[k] == pos2[k - 1]);
                            assert(r[k] == resto[k - 1]);
                        }
                    }
                    assert forall|k: int, j: int| 0 <= k < j < pos.len() implies pos[k] < pos[j] by {
                        if k > 0 {
                            assert(pos[k] == pos2[k - 1]);
                        }
                        assert(pos[j] == pos2[j - 1]);
                        assert(p <= pos2[j - 1]);
                    }
                }
            },
            Tok::Imprimir => {
                lema_orden(t, fl, i + 2, dentro, inicio, fin);
                let resto = programa(t, fl, i + 2, dentro, inicio, fin)->Ok_0;
                let pos2 = choose|pos: Seq<int>| #[trigger] posiciones_en_orden(t, i + 2, resto, pos);
                let pos = seq![i] + pos2;
                let ins = Instr::Imprimir(t[i + 1]->Texto_0);
                assert(r == seq![ins] + resto);
                assert(posiciones_en_orden(t, i, r, pos)) by {
                    assert forall|k: int|
                        0 <= k < pos.len() implies i <= #[trigger] pos[k] < t.len() && origen(
                        t,
                        pos[k],
                        r[k],
                    ) by {
                        if k > 0 {
                            assert(pos[k] == pos2[k - 1]);
                            assert(r[k] == resto[k - 1]);
                        }
                    }
                    assert forall|k: int, j: int| 0 <= k < j < pos.len() implies pos[k] < pos[j] by {
                        if k > 0 {
                            assert(pos[k] == pos2[k - 1]);
                        }
                        assert(pos[j] == pos2[j - 1]);
                    }
                }
            },
            _ => {},
        }
    }
}

/// Statement order is kept: the statements that parsing yields come from
/// the statement keywords of the token sequence in the order in which those
/// keywords stand, each naming the same variable or text as its keyword.
pub proof fn ley_orden_de_instrucciones(t: Seq<Tok>, fl: Seq<Option<u64>>)
    requires
        analizar(t, fl) is Ok,
    ensures
        exists|pos: Seq<int>| #[trigger] posiciones_en_orden(t, 0, analizar(t, fl)->Ok_0, pos),
{
    lema_orden(t, fl, 0, false, false, false);
}

/// How a numeric token is read: as the integer it denotes where it is one,
/// and then whatever the float reader made of it plays no part; otherwise
/// as the float the reader gave, or an invalid number where it gave none.
pub proof fn ley_literal_numerico(t: Seq<Tok>, fl: Seq<Option<u64>>, pos: int)
    requires
        0 <= pos < t.len(),
        t[pos] is Numero,
    ensures
        factor(t, fl, pos) == match entero_de(t[pos]->Numero_0) {
            Some(i) => Ok::<(Expr, int), ErrorSintaxis>((Expr::Valor(Val::Int(i)), pos + 1)),
            None => match fl[pos] {
                Some(b) => Ok((Expr::Valor(Val::Float(b)), pos + 1)),
                None => Err(ErrorSintaxis::NumeroInvalido(pos as usize)),
            },
        },
        entero_de(t[pos]->Numero_0) is Some ==> forall|otro: Seq<Option<u64>>|
            #[trigger] factor(t, otro, pos) == factor(t, fl, pos),
{
}

/// Division never yields an integer: every quotient it gives is a float.
pub proof fn ley_division_flotante(a: Val, b: Val, r: Result<Val, ErrorEvaluacion>)
    requires
        operacion(Operador::Division, a, b, r),
        r is Ok,
    ensures
        r->Ok_0 is Float,
{
}

/// A statement leaves an immutable binding as it was.
pub proof fn ley_inmutable_en_un_paso(i: Instr, env: Vars, evs: Seq<Ev>, envf: Vars, n: Seq<char>)
    requires
        paso(i, env, evs, envf),
        env.contains_key(n),
        !env[n].1,
    ensures
        envf.contains_key(n),
        envf[n] == env[n],
{
    match i {
        Instr::Var(m, e) => {
            if !env.contains_key(m) {
                let r = choose|r: Result<Val, ErrorEvaluacion>|
                    #[trigger] resultado(r) && evaluacion(e, env, r) && declarado(m, r, false, env, evs, envf);
                assert(m != n);
            }
        },
        Instr::Mutar(m, e) => {
            if !(env.contains_key(m) && !env[m].1) {
                let r = choose|r: Result<Val, ErrorEvaluacion>|
                    #[trigger] resultado(r) && evaluacion(e, env, r) && declarado(m, r, true, env, evs, envf);
                assert(m != n);
            }
        },
        Instr::Imprimir(_) => {},
    }
}

/// A run leaves every immutable binding of its starting environment as it
/// was: once declared with `var`, a variable keeps its value.
pub proof fn ley_inmutable(is: Seq<Instr>, env0: Vars, evs: Seq<Ev>, envf: Vars, n: Seq<char>)
    requires
        ejecucion(is, env0, evs, envf),
        env0.contains_key(n),
        !env0[n].1,
    ensures
        envf.contains_key(n),
        envf[n] == env0[n],
    decreases is.len(),
{
    if is.len() > 0 {
        let (m, e) = choose|m: Seq<Ev>, e: Vars|
            #[trigger] estado_marca(m, e) && ejecucion(is.drop_last(), env0, m, e) && evs.len()
                >= m.len() && evs.take(m.len() as int) == m && paso(
                is.last(),
                e,
                evs.skip(m.len() as int),
                envf,
            );
        ley_inmutable(is.drop_last(), env0, m, e, n);
        ley_inmutable_en_un_paso(is.last(), e, evs.skip(m.len() as int), envf, n);
    }
}

pub open spec fn sin_inicio(t: Seq<Tok>, a: int, b: int) -> bool {
    forall|k: int| a <= k < b ==> t[k] != Tok::Iniciar
}

proof fn lema_factor_sin_inicio(t: Seq<Tok>, fl: Seq<Option<u64>>, pos: int)
    ensures
        factor(t, fl, pos) matches Ok((_, p)) ==> sin_inicio(t, pos, p),
    decreases t.len() - pos, 0int,
{
    if 0 <= pos < t.len() && t[pos] is ParenAbre {
        lema_expresion_sin_inicio(t, fl, pos + 1, 0);
    }
}

proof fn lema_expresion_sin_inicio(t: Seq<Tok>, fl: Seq<Option<u64>>, pos: int, min: nat)
    ensures
        expresion(t, fl, pos, min) matches Ok((_, p)) ==> sin_inicio(t, pos, p),
    decreases t.len() - pos, 1int,
{
    lema_factor_sin_inicio(t, fl, pos);
    if let Ok((izq, p)) = factor(t, fl, pos) {
        if pos < p <= t.len() {
            lema_resto_sin_inicio(t, fl, izq, p, min);
        }
    }
}

proof fn lema_resto_sin_inicio(t: Seq<Tok>, fl: Seq<Option<u64>>, izq: Expr, pos: int, min: nat)
    ensures
        resto(t, fl, izq, pos, min) matches Ok((_, p)) ==> sin_inicio(t, pos, p),
    decreases t.len() - pos, 2int,
{
    if 0 <= pos < t.len() {
        if let Tok::Operador(c) = t[pos] {
            if precedencia(c) >= min {
                lema_expresion_sin_inicio(t, fl, pos + 1, precedencia(c) + 1);
                if let Ok((der, p)) = expresion(t, fl, pos + 1, precedencia(c) + 1) {
                    if let Some(op) = operador_de(c) {
                        if pos < p <= t.len() {
                            lema_resto_sin_inicio(
                                t,
                                fl,
                                Expr::BinOp(Box::new(izq), op, Box::new(der)),
                                p,
                                min,
                            );
                        }
                    }
                }
            }
        }
    }
}

proof fn lema_inicio_ya_visto(t: Seq<Tok>, fl: Seq<Option<u64>>, i: int, dentro: bool, fin: bool, j: int)
    requires
        0 <= i <= j < t.len(),
        t[j] == Tok::Iniciar,
    ensures
        programa(t, fl, i, dentro, true, fin) is Err,
    decreases t.len() - i,
{
    match t[i] {
        Tok::Iniciar => {},
        Tok::Fin => {
            if !fin {
                lema_inicio_ya_visto(t, fl, i + 1, false, true, j);
            }
        },
        Tok::Var | Tok::Mutar => {
            if dentro {
                lema_expresion_sin_inicio(t, fl, i + 3, 0);
                if let Ok((ins, p)) = declaracion(t, fl, i + 1, t[i] is Mutar) {
                    if i < p <= t.len() {
                        assert(sin_inicio(t, i, p));
                        if j >= p {
                            lema_inicio_ya_visto(t, fl, p, dentro, fin, j);
                        }
                    }
                }
            }
        },
        Tok::Imprimir => {
            if dentro && i + 1 < t.len() && t[i + 1] is Texto {
                lema_inicio_ya_visto(t, fl, i + 2, dentro, fin, j);
            }
        },
        _ => {},
    }
}

/// A token sequence with two start markers is never a program.
pub proof fn ley_inicio_duplicado(t: Seq<Tok>, fl: Seq<Option<u64>>, j1: int, j2: int)
    requires
        0 <= j1 < j2 < t.len(),
        t[j1] == Tok::Iniciar,
        t[j2] == Tok::Iniciar,
    ensures
        analizar(t, fl) is Err,
{
    if t[0] is Iniciar {
        lema_inicio_ya_visto(t, fl, 1, true, false, j2);
    }
}

// ---- lines of a text are tokenized in order --------------------------------

/// The tokens of a lexer outcome, if it succeeded.
pub open spec fn ok_de(r: Result<Seq<Tok>, ErrorLexico>) -> Option<Seq<Tok>> {
    match r {
        Ok(v) => Some(v),
        Err(_) => None,
    }
}

/// Whether a multi-line comment is open after the lines of `s[ini..]`.
pub open spec fn comentario_final(s: Seq<char>, ini: int, com: bool) -> bool
    decreases s.len() - ini,
{
    if ini < 0 || ini >= s.len() {
        com
    } else {
        let f = fin_linea(s, ini);
        let nc = comentario_tras_linea(s.subrange(ini, f), com);
        if ini <= f < s.len() {
            comentario_final(s, f + 1, nc)
        } else {
            nc
        }
    }
}

proof fn lema_fragmento_num(s: Seq<char>, i: int, n1: usize, n2: usize)
    ensures
        ok_de(fragmento(s, i, n1)) == ok_de(fragmento(s, i, n2)),
    decreases s.len() - i,
{
    if 0 <= i < s.len() {
        let c = s[i];
        if es_espacio(c) {
            lema_fragmento_num(s, i + 1, n1, n2);
        } else if es_alfabetico(c) || c == '_' {
            let k = fin_identificador(s, i + 1);
            if i < k <= s.len() {
                lema_fragmento_num(s, k, n1, n2);
            }
        } else if digito(c) {
            let k = fin_numero(s, i + 1, false);
            if i < k <= s.len() {
                lema_fragmento_num(s, k, n1, n2);
            }
        } else if c == '"' {
            if let Some(k) = indice_de(s, '"', i + 1) {
                if i < k < s.len() {
                    lema_fragmento_num(s, k + 1, n1, n2);
                }
            }
        } else if es_simbolo(c) {
            lema_fragmento_num(s, i + 1, n1, n2);
        }
    }
}

proof fn lema_linea_num(l: Seq<char>, com: bool, n1: usize, n2: usize)
    ensures
        ok_de(tokens_linea(l, com, n1)) == ok_de(tokens_linea(l, com, n2)),
{
    let c = sin_comentario(recortar(l));
    lema_fragmento_num(c, 4, n1, n2);
    lema_fragmento_num(c, 6, n1, n2);
}

proof fn lema_lexar_num(s: Seq<char>, ini: int, com: bool, n1: usize, n2: usize)
    ensures
        ok_de(lexar(s, ini, com, n1)) == ok_de(lexar(s, ini, com, n2)),
    decreases s.len() - ini,
{
    if 0 <= ini < s.len() {
        let f = fin_linea(s, ini);
        let l = s.subrange(ini, f);
        lema_linea_num(l, com, n1, n2);
        if ini <= f < s.len() {
            lema_lexar_num(s, f + 1, comentario_tras_linea(l, com), (n1 + 1) as usize, (n2 + 1) as usize);
        }
    }
}

proof fn lema_fin_linea_cotas(s: Seq<char>, i: int)
    requires
        0 <= i <= s.len(),
    ensures
        i <= fin_linea(s, i) <= s.len(),
    decreases s.len() - i,
{
    if i < s.len() && s[i] != '\n' {
        lema_fin_linea_cotas(s, i + 1);
    }
}

proof fn lema_fin_linea_corrido(p: Seq<char>, q: Seq<char>, k: int)
    requires
        0 <= k,
    ensures
        fin_linea(p + q, p.len() + k) == p.len() + fin_linea(q, k),
    decreases q.len() - k,
{
    if k < q.len() {
        assert((p + q)[p.len() + k] == q[k]);
        if q[k] != '\n' {
            lema_fin_linea_corrido(p, q, k + 1);
        }
    }
}

proof fn lema_lexar_corrido(p: Seq<char>, q: Seq<char>, k: int, com: bool, n1: usize, n2: usize)
    requires
        0 <= k,
    ensures
        ok_de(lexar(p + q, p.len() + k, com, n1)) == ok_de(lexar(q, k, com, n2)),
    decreases q.len() - k,
{
    let s = p + q;
    if k < q.len() {
        lema_fin_linea_corrido(p, q, k);
        lema_fin_linea_cotas(q, k);
        let f = fin_linea(q, k);
        assert(s.subrange(p.len() + k, p.len() + f) =~= q.subrange(k, f));
        let l = q.subrange(k, f);
        lema_linea_num(l, com, n1, n2);
        if k <= f < q.len() {
            lema_lexar_corrido(p, q, f + 1, comentario_tras_linea(l, com), (n1 + 1) as usize, (n2 + 1) as usize);
        }
    }
}

proof fn lema_fin_linea_prefijo(a: Seq<char>, b: Seq<char>, i: int)
    requires
        0 <= i <= a.len(),
    ensures
        fin_linea(a + seq!['\n'] + b, i) == fin_linea(a, i),
    decreases a.len() - i,
{
    let s = a + seq!['\n'] + b;
    if i < a.len() {
        assert(s[i] == a[i]);
        if a[i] != '\n' {
            lema_fin_linea_prefijo(a, b, i + 1);
        }
    } else {
        assert(s[i] == '\n');
    }
}

proof fn lema_unir(a: Seq<char>, b: Seq<char>, ini: int, com: bool, n: usize)
    requires
        0 <= ini <= a.len(),
        lexar(a, ini, com, n) is Ok,
        tokenizar(b) is Ok,
        !comentario_final(a, ini, com),
    ensures
        ok_de(lexar(a + seq!['\n'] + b, ini, com, n)) == Some(
            lexar(a, ini, com, n)->Ok_0 + tokenizar(b)->Ok_0,
        ),
    decreases a.len() - ini,
{
    let s = a + seq!['\n'] + b;
    let p = a + seq!['\n'];
    assert(s == p + b);
    lema_fin_linea_prefijo(a, b, ini);
    if ini == a.len() {
        assert(s[ini] == '\n');
        let l = s.subrange(ini, ini);
        assert(l =~= Seq::<char>::empty());
        assert(recortar(l) =~= Seq::<char>::empty());
        assert(comentario_tras_linea(l, com) == com);
        assert(tokens_linea(l, com, n) == Ok::<Seq<Tok>, ErrorLexico>(seq![]));
        lema_lexar_corrido(p, b, 0, com, (n + 1) as usize, 1);
        assert(seq![] + tokenizar(b)->Ok_0 =~= tokenizar(b)->Ok_0);
        assert(lexar(a, ini, com, n)->Ok_0 =~= seq![]);
        assert(seq![] + tokenizar(b)->Ok_0 =~= seq![] + (seq![] + tokenizar(b)->Ok_0));
    } else {
        let f = fin_linea(a, ini);
        lema_fin_linea_cotas(a, ini);
        assert(s.subrange(ini, f) =~= a.subrange(ini, f));
        let l = a.subrange(ini, f);
        let ts = tokens_linea(l, com, n)->Ok_0;
        let nc = comentario_tras_linea(l, com);
        if f < a.len() {
            lema_unir(a, b, f + 1, nc, (n + 1) as usize);
            let ra = lexar(a, f + 1, nc, (n + 1) as usize)->Ok_0;
            assert(ts + (ra + tokenizar(b)->Ok_0) =~= (ts + ra) + tokenizar(b)->Ok_0);
        } else {
            assert(f == a.len());
            lema_lexar_corrido(p, b, 0, nc, (n + 1) as usize, 1);
        }
    }
}

/// Lines keep their order: a text made of two texts joined by a line break
/// gives the tokens of the first followed by those of the second, when the
/// first leaves no multi-line comment open.
pub proof fn ley_lineas_en_orden(a: Seq<char>, b: Seq<char>)
    requires
        tokenizar(a) is Ok,
        tokenizar(b) is Ok,
        !comentario_final(a, 0, false),
    ensures
        tokenizar(a + seq!['\n'] + b) == Ok::<Seq<Tok>, ErrorLexico>(
            tokenizar(a)->Ok_0 + tokenizar(b)->Ok_0,
        ),
{
    lema_unir(a, b, 0, false, 1);
}

} // verus!
