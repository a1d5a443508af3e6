use vstd::prelude::*;
use crate::ast::{Token, Tok, vista_tokens};
use crate::texto::{caracteres, texto_de};

verus! {

/// Why a source text cannot be tokenized. Line numbers count from 1.
#[derive(Debug, Clone, Copy, PartialEq, Eq, Structural)]
pub enum ErrorLexico {
    ImprimirSinCierre(usize),
    CadenaNoCerrada(usize),
    CaracterNoReconocido(usize, char),
    LineaDesconocida(usize),
}

/// The characters with the Unicode White_Space property, those that
/// `char::is_whitespace` accepts.
pub open spec fn es_espacio(c: char) -> bool {
    ('\u{9}' <= c && c <= '\u{d}') || c == ' ' || c == '\u{85}' || c == '\u{a0}' || c == '\u{1680}'
        || ('\u{2000}' <= c && c <= '\u{200a}') || c == '\u{2028}' || c == '\u{2029}' || c
        == '\u{202f}' || c == '\u{205f}' || c == '\u{3000}'
}

pub uninterp spec fn es_alfabetico(c: char) -> bool;

pub uninterp spec fn es_alfanumerico(c: char) -> bool;

fn espacio(c: char) -> (r: bool)
    ensures
        r == es_espacio(c),
{
    ('\u{9}' <= c && c <= '\u{d}') || c == ' ' || c == '\u{85}' || c == '\u{a0}' || c == '\u{1680}'
        || ('\u{2000}' <= c && c <= '\u{200a}') || c == '\u{2028}' || c == '\u{2029}' || c
        == '\u{202f}' || c == '\u{205f}' || c == '\u{3000}'
}

/// Relies on char::is_alphabetic: the Unicode Alphabetic property.
#[verifier::external_body]
fn alfabetico(c: char) -> (r: bool)
    ensures
        r == es_alfabetico(c),
{
    c.is_alphabetic()
}

/// Relies on char::is_alphanumeric: Alphabetic or Numeric in Unicode.
#[verifier::external_body]
fn alfanumerico(c: char) -> (r: bool)
    ensures
        r == es_alfanumerico(c),
{
    c.is_alphanumeric()
}

pub open spec fn digito(c: char) -> bool {
    '0' <= c && c <= '9'
}

// ---- lines ----------------------------------------------------------------

/// Index of the line break that ends the line holding `i`, or the length.
pub open spec fn fin_linea(s: Seq<char>, i: int) -> int
    decreases s.len() - i,
{
    if i < 0 || i >= s.len() {
        s.len() as int
    } else if s[i] == '\n' {
        i
    } else {
        fin_linea(s, i + 1)
    }
}

/// First index from `i` on that holds no white space, or the length.
pub open spec fn inicio_recorte(l: Seq<char>, i: int) -> int
    decreases l.len() - i,
{
    if 0 <= i < l.len() && es_espacio(l[i]) {
        inicio_recorte(l, i + 1)
    } else {
        i
    }
}

/// End of `l[a..j]` once white space at its end is dropped.
pub open spec fn fin_recorte(l: Seq<char>, a: int, j: int) -> int
    decreases j - a,
{
    if a < j && es_espacio(l[j - 1]) {
        fin_recorte(l, a, j - 1)
    } else {
        j
    }
}

/// `l` without white space at either end.
pub open spec fn recortar(l: Seq<char>) -> Seq<char> {
    let a = inicio_recorte(l, 0);
    l.subrange(a, fin_recorte(l, a, l.len() as int))
}

/// The first index from `i` on that holds `c`.
pub open spec fn indice_de(l: Seq<char>, c: char, i: int) -> Option<int>
    decreases l.len() - i,
{
    if i < 0 || i >= l.len() {
        None
    } else if l[i] == c {
        Some(i)
    } else {
        indice_de(l, c, i + 1)
    }
}

/// The index of the `)` that closes an open `(`, scanning from `j` with
/// `prof` parentheses open.
pub open spec fn cierre(l: Seq<char>, j: int, prof: nat) -> Option<int>
    decreases l.len() - j,
{
    if j < 0 || j >= l.len() {
        None
    } else if l[j] == '(' {
        cierre(l, j + 1, prof + 1)
    } else if l[j] == ')' {
        if prof <= 1 {
            Some(j)
        } else {
            cierre(l, j + 1, (prof - 1) as nat)
        }
    } else {
        cierre(l, j + 1, prof)
    }
}

/// A trimmed line without the comment that a `#` opens.
pub open spec fn sin_comentario(t: Seq<char>) -> Seq<char> {
    match indice_de(t, '#', 0) {
        Some(p) => t.subrange(0, fin_recorte(t, 0, p)),
        None => t,
    }
}

pub open spec fn empieza_con(l: Seq<char>, p: Seq<char>) -> bool {
    l.len() >= p.len() && l.take(p.len() as int) == p
}

pub open spec fn termina_con(l: Seq<char>, p: Seq<char>) -> bool {
    l.len() >= p.len() && l.skip(l.len() - p.len()) == p
}

pub open spec fn marca_comentario() -> Seq<char> {
    seq!['#', '/']
}

pub open spec fn marca_inicio() -> Seq<char> {
    seq!['i', 'n', 'i', 'c', 'i', 'a', 'r', '<', '/', '>']
}

pub open spec fn marca_fin() -> Seq<char> {
    seq!['<', '/', '>']
}

pub open spec fn prefijo_imprimir() -> Seq<char> {
    seq!['i', 'm', 'p', 'r', 'i', 'm', 'i', 'r', '(']
}

pub open spec fn prefijo_var() -> Seq<char> {
    seq!['v', 'a', 'r', ' ']
}

pub open spec fn prefijo_mutar() -> Seq<char> {
    seq!['m', 'u', 't', 'a', 'r', ' ']
}

// ---- expression fragments -------------------------------------------------

/// End of the identifier whose remaining characters start at `i`.
pub open spec fn fin_identificador(s: Seq<char>, i: int) -> int
    decreases s.len() - i,
{
    if 0 <= i < s.len() && (es_alfanumerico(s[i]) || s[i] == '_') {
        fin_identificador(s, i + 1)
    } else {
        i
    }
}

/// End of the number whose remaining characters start at `i`: digits, and
/// one decimal point while `punto` says none has been read.
pub open spec fn fin_numero(s: Seq<char>, i: int, punto: bool) -> int
    decreases s.len() - i,
{
    if 0 <= i < s.len() && (digito(s[i]) || (!punto && s[i] == '.')) {
        fin_numero(s, i + 1, punto || s[i] == '.')
    } else {
        i
    }
}

pub open spec fn es_simbolo(c: char) -> bool {
    c == '+' || c == '-' || c == '*' || c == '/' || c == '%' || c == '=' || c == '(' || c == ')'
        || c == ';' || c == ','
}

pub open spec fn token_simbolo(c: char) -> Tok {
    if c == '(' {
        Tok::ParenAbre
    } else if c == ')' {
        Tok::ParenCierra
    } else if c == ';' {
        Tok::PuntoYComa
    } else if c == ',' {
        Tok::Coma
    } else {
        Tok::Operador(c)
    }
}

/// The tokens of `s[i..]`, an expression fragment on line `num`. Every scan
/// moves forward; the tests on `k` only bound the recursion.
pub open spec fn fragmento(s: Seq<char>, i: int, num: usize) -> Result<Seq<Tok>, ErrorLexico>
    decreases s.len() - i,
{
    if i < 0 || i >= s.len() {
        Ok(seq![])
    } else {
        let c = s[i];
        if es_espacio(c) {
            fragmento(s, i + 1, num)
        } else if es_alfabetico(c) || c == '_' {
            let k = fin_identificador(s, i + 1);
            if i < k <= s.len() {
                seguido(Tok::Identificador(s.subrange(i, k)), fragmento(s, k, num))
            } else {
                Ok(seq![])
            }
        } else if digito(c) {
            let k = fin_numero(s, i + 1, false);
            if i < k <= s.len() {
                seguido(Tok::Numero(s.subrange(i, k)), fragmento(s, k, num))
            } else {
                Ok(seq![])
            }
        } else if c == '"' {
            match indice_de(s, '"', i + 1) {
                None => Err(ErrorLexico::CadenaNoCerrada(num)),
                Some(k) => if i < k < s.len() {
                    seguido(Tok::Cadena(s.subrange(i + 1, k)), fragmento(s, k + 1, num))
                } else {
                    Ok(seq![])
                },
            }
        } else if es_simbolo(c) {
            seguido(token_simbolo(c), fragmento(s, i + 1, num))
        } else {
            Err(ErrorLexico::CaracterNoReconocido(num, c))
        }
    }
}

/// `t` followed by the tokens of `r`.
pub open spec fn seguido(t: Tok, r: Result<Seq<Tok>, ErrorLexico>) -> Result<Seq<Tok>, ErrorLexico> {
    match r {
        Ok(ts) => Ok(seq![t] + ts),
        Err(e) => Err(e),
    }
}

// ---- lines and whole texts ------------------------------------------------

/// Whether the line `l`, read with `en_com` telling whether a multi-line
/// comment is open, leaves such a comment open.
pub open spec fn comentario_tras_linea(l: Seq<char>, en_com: bool) -> bool {
    let t = recortar(l);
    if en_com {
        !termina_con(t, marca_comentario())
    } else if empieza_con(t, marca_comentario()) {
        !termina_con(t, marca_comentario())
    } else {
        false
    }
}

/// The tokens of the line `l`, line number `num`.
pub open spec fn tokens_linea(l: Seq<char>, en_com: bool, num: usize) -> Result<Seq<Tok>, ErrorLexico> {
    let t = recortar(l);
    if en_com || empieza_con(t, marca_comentario()) {
        Ok(seq![])
    } else {
        let c = sin_comentario(t);
        if c.len() == 0 {
            Ok(seq![])
        } else if c == marca_inicio() {
            Ok(seq![Tok::Iniciar])
        } else if c == marca_fin() {
            Ok(seq![Tok::Fin])
        } else if empieza_con(c, prefijo_imprimir()) {
            match cierre(c, 9, 1) {
                Some(f) => Ok(seq![Tok::Imprimir, Tok::Texto(c.subrange(9, f))]),
                None => Err(ErrorLexico::ImprimirSinCierre(num)),
            }
        } else if empieza_con(c, prefijo_var()) {
            seguido(Tok::Var, fragmento(c, 4, num))
        } else if empieza_con(c, prefijo_mutar()) {
            seguido(Tok::Mutar, fragmento(c, 6, num))
        } else {
            Err(ErrorLexico::LineaDesconocida(num))
        }
    }
}

/// The tokens of the lines of `s` from index `ini` on, the first of them
/// numbered `num`. A line ends at a line break or at the end of the text.
pub open spec fn lexar(s: Seq<char>, ini: int, en_com: bool, num: usize) -> Result<
    Seq<Tok>,
    ErrorLexico,
>
    decreases s.len() - ini,
{
    if ini < 0 || ini >= s.len() {
        Ok(seq![])
    } else {
        let f = fin_linea(s, ini);
        let l = s.subrange(ini, f);
        if ini <= f {
            match tokens_linea(l, en_com, num) {
                Err(e) => Err(e),
                Ok(ts) => if f < s.len() {
                    match lexar(s, f + 1, comentario_tras_linea(l, en_com), (num + 1) as usize) {
                        Err(e) => Err(e),
                        Ok(r) => Ok(ts + r),
                    }
                } else {
                    Ok(ts)
                },
            }
        } else {
            Ok(seq![])
        }
    }
}

/// What `tokenize` yields on a source text.
pub open spec fn tokenizar(s: Seq<char>) -> Result<Seq<Tok>, ErrorLexico> {
    lexar(s, 0, false, 1)
}

pub open spec fn combinar(pre: Seq<Tok>, r: Result<Seq<Tok>, ErrorLexico>) -> Result<
    Seq<Tok>,
    ErrorLexico,
> {
    match r {
        Ok(ts) => Ok(pre + ts),
        Err(e) => Err(e),
    }
}

proof fn lema_combinar(pre: Seq<Tok>, t: Tok, r: Result<Seq<Tok>, ErrorLexico>)
    ensures
        combinar(pre, seguido(t, r)) == combinar(pre.push(t), r),
{
    if let Ok(ts) = r {
        assert(pre + (seq![t] + ts) =~= pre.push(t) + ts);
    }
}

proof fn lema_combinar_seq(pre: Seq<Tok>, ts: Seq<Tok>, r: Result<Seq<Tok>, ErrorLexico>)
    ensures
        combinar(pre, combinar(ts, r)) == combinar(pre + ts, r),
{
    if let Ok(x) = r {
        assert(pre + (ts + x) =~= (pre + ts) + x);
    }
}

proof fn lema_vista_push(v: Seq<Token>, t: Token)
    ensures
        vista_tokens(v.push(t)) == vista_tokens(v).push(t@),
{
    assert(vista_tokens(v.push(t)) =~= vista_tokens(v).push(t@));
}

// ---- executable -------------------------------------------------------------

pub(crate) fn copiar(v: &Vec<char>, a: usize, b: usize) -> (r: Vec<char>)
    requires
        a <= b <= v.len(),
    ensures
        r@ == v@.subrange(a as int, b as int),
{
    let mut r: Vec<char> = Vec::new();
    let mut i: usize = a;
    while i < b
        invariant
            a <= i <= b <= v.len(),
            r@ == v@.subrange(a as int, i as int),
        decreases b - i,
    {
        r.push(v[i]);
        assert(r@ =~= v@.subrange(a as int, i + 1));
        i += 1;
    }
    r
}

pub(crate) fn inicio_sin_espacio(l: &Vec<char>) -> (r: usize)
    ensures
        r == inicio_recorte(l@, 0),
        r <= l.len(),
{
    let mut i: usize = 0;
    while i < l.len() && espacio(l[i])
        invariant
            i <= l.len(),
            inicio_recorte(l@, 0) == inicio_recorte(l@, i as int),
        decreases l.len() - i,
    {
        i += 1;
    }
    i
}

pub(crate) fn fin_sin_espacio(l: &Vec<char>, a: usize, b: usize) -> (r: usize)
    requires
        a <= b <= l.len(),
    ensures
        r == fin_recorte(l@, a as int, b as int),
        a <= r <= b,
{
    let mut j: usize = b;
    while a < j && espacio(l[j - 1])
        invariant
            a <= j <= b <= l.len(),
            fin_recorte(l@, a as int, b as int) == fin_recorte(l@, a as int, j as int),
        decreases j,
    {
        j -= 1;
    }
    j
}

pub(crate) fn buscar(l: &Vec<char>, c: char, desde: usize) -> (r: Option<usize>)
    requires
        desde <= l.len(),
    ensures
        match indice_de(l@, c, desde as int) {
            Some(k) => r == Some(k as usize) && desde <= k < l.len(),
            None => r is None,
        },
{
    let mut i: usize = desde;
    while i < l.len()
        invariant
            desde <= i <= l.len(),
            indice_de(l@, c, desde as int) == indice_de(l@, c, i as int),
        decreases l.len() - i,
    {
        if l[i] == c {
            return Some(i);
        }
        i += 1;
    }
    None
}

/// The `)` that closes the `(` just before `desde`.
fn buscar_cierre(l: &Vec<char>, desde: usize) -> (r: Option<usize>)
    requires
        desde <= l.len(),
    ensures
        match cierre(l@, desde as int, 1) {
            Some(k) => r == Some(k as usize) && desde <= k < l.len(),
            None => r is None,
        },
{
    let mut i: usize = desde;
    let mut anidados: usize = 0;
    while i < l.len()
        invariant
            desde <= i <= l.len(),
            anidados <= i - desde,
            cierre(l@, desde as int, 1) == cierre(l@, i as int, (anidados + 1) as nat),
        decreases l.len() - i,
    {
        if l[i] == '(' {
            anidados += 1;
        } else if l[i] == ')' {
            if anidados == 0 {
                return Some(i);
            }
            anidados -= 1;
        }
        i += 1;
    }
    None
}

fn empieza(l: &Vec<char>, p: &Vec<char>) -> (r: bool)
    ensures
        r == empieza_con(l@, p@),
{
    if l.len() < p.len() {
        return false;
    }
    let mut i: usize = 0;
    while i < p.len()
        invariant
            i <= p.len() <= l.len(),
            forall|k: int| 0 <= k < i ==> l@[k] == p@[k],
        decreases p.len() - i,
    {
        if l[i] != p[i] {
            assert(l@.take(p.len() as int)[i as int] != p@[i as int]);
            return false;
        }
        i += 1;
    }
    assert(l@.take(p.len() as int) =~= p@);
    true
}

fn termina(l: &Vec<char>, p: &Vec<char>) -> (r: bool)
    ensures
        r == termina_con(l@, p@),
{
    if l.len() < p.len() {
        return false;
    }
    let base = l.len() - p.len();
    let mut i: usize = 0;
    while i < p.len()
        invariant
            i <= p.len() <= l.len(),
            base == l.len() - p.len(),
            forall|k: int| 0 <= k < i ==> l@[base + k] == p@[k],
        decreases p.len() - i,
    {
        if l[base + i] != p[i] {
            assert(l@.skip(base as int)[i as int] != p@[i as int]);
            return false;
        }
        i += 1;
    }
    assert(l@.skip(base as int) =~= p@);
    true
}

fn iguales(l: &Vec<char>, p: &Vec<char>) -> (r: bool)
    ensures
        r == (l@ == p@),
{
    if l.len() != p.len() {
        return false;
    }
    let e = empieza(l, p);
    assert(l@.take(p.len() as int) =~= l@);
    e
}

/// Tokenizes the expression fragment `s[desde..]` on line `num`, appending
/// its tokens to `tokens`.
fn tokenize_expresion(s: &Vec<char>, desde: usize, num: usize, tokens: &mut Vec<Token>) -> (r:
    Result<(), ErrorLexico>)
    requires
        desde <= s.len(),
    ensures
        match combinar(vista_tokens(old(tokens)@), fragmento(s@, desde as int, num)) {
            Ok(ts) => r is Ok && vista_tokens(final(tokens)@) == ts,
            Err(e) => r == Err::<(), ErrorLexico>(e),
        },
        final(tokens)@.len() >= old(tokens)@.len(),
        final(tokens)@.take(old(tokens)@.len() as int) == old(tokens)@,
{
    let ghost meta = combinar(vista_tokens(tokens@), fragmento(s@, desde as int, num));
    let mut i: usize = desde;
    while i < s.len()
        invariant
            desde <= i <= s.len(),
            meta == combinar(vista_tokens(old(tokens)@), fragmento(s@, desde as int, num)),
            meta == combinar(vista_tokens(tokens@), fragmento(s@, i as int, num)),
            tokens@.len() >= old(tokens)@.len(),
            tokens@.take(old(tokens)@.len() as int) == old(tokens)@,
        decreases s.len() - i,
    {
        let c = s[i];
        if espacio(c) {
            i += 1;
            continue ;
        }
        if alfabetico(c) || c == '_' {
            let inicio = i;
            i += 1;
            while i < s.len() && (alfanumerico(s[i]) || s[i] == '_')
                invariant
                    inicio < i <= s.len(),
                    fin_identificador(s@, inicio + 1) == fin_identificador(s@, i as int),
                decreases s.len() - i,
            {
                i += 1;
            }
            let t = Token::Identificador(texto_de(s, inicio, i));
            proof {
                lema_combinar(vista_tokens(tokens@), t@, fragmento(s@, i as int, num));
                lema_vista_push(tokens@, t);
            }
            tokens.push(t);
            assert(tokens@.take(old(tokens)@.len() as int) =~= old(tokens)@);
            continue ;
        }
        if '0' <= c && c <= '9' {
            let inicio = i;
            i += 1;
            let mut tiene_punto = false;
            while i < s.len() && (('0' <= s[i] && s[i] <= '9') || (!tiene_punto && s[i] == '.'))
                invariant
                    inicio < i <= s.len(),
                    fin_numero(s@, inicio + 1, false) == fin_numero(s@, i as int, tiene_punto),
                decreases s.len() - i,
            {
                if s[i] == '.' {
                    tiene_punto = true;
                }
                i += 1;
            }
            let t = Token::Numero(texto_de(s, inicio, i));
            proof {
                lema_combinar(vista_tokens(tokens@), t@, fragmento(s@, i as int, num));
                lema_vista_push(tokens@, t);
            }
            tokens.push(t);
            assert(tokens@.take(old(tokens)@.len() as int) =~= old(tokens)@);
            continue ;
        }
        if c == '"' {
            let inicio = i;
            let cierre = match buscar(s, '"', i + 1) {
                Some(k) => k,
                None => {
                    return Err(ErrorLexico::CadenaNoCerrada(num));
                },
            };
            let t = Token::Cadena(texto_de(s, inicio + 1, cierre));
            i = cierre + 1;
            proof {
                lema_combinar(vista_tokens(tokens@), t@, fragmento(s@, i as int, num));
                lema_vista_push(tokens@, t);
            }
            tokens.push(t);
            assert(tokens@.take(old(tokens)@.len() as int) =~= old(tokens)@);
            continue ;
        }
        let t = match c {
            '+' | '-' | '*' | '/' | '%' | '=' => Token::Operador(c),
            '(' => Token::ParenAbre,
            ')' => Token::ParenCierra,
            ';' => Token::PuntoYComa,
            ',' => Token::Coma,
            _ => {
                return Err(ErrorLexico::CaracterNoReconocido(num, c));
            },
        };
        i += 1;
        proof {
            lema_combinar(vista_tokens(tokens@), t@, fragmento(s@, i as int, num));
            lema_vista_push(tokens@, t);
        }
        tokens.push(t);
        assert(tokens@.take(old(tokens)@.len() as int) =~= old(tokens)@);
    }
    Ok(())
}

/// Tokenizes one line `l`, numbered `num`, appending its tokens to `tokens`;
/// yields whether a multi-line comment is open after it.
fn tokenize_linea(l: &Vec<char>, en_com: bool, num: usize, tokens: &mut Vec<Token>) -> (r: Result<
    bool,
    ErrorLexico,
>)
    ensures
        match combinar(vista_tokens(old(tokens)@), tokens_linea(l@, en_com, num)) {
            Ok(ts) => r == Ok::<bool, ErrorLexico>(comentario_tras_linea(l@, en_com))
                && vista_tokens(final(tokens)@) == ts,
            Err(e) => r == Err::<bool, ErrorLexico>(e),
        },
{
    let a = inicio_sin_espacio(l);
    let b = fin_sin_espacio(l, a, l.len());
    let t = copiar(l, a, b);
    let marca = vec!['#', '/'];
    assert(vista_tokens(tokens@) + seq![] =~= vista_tokens(tokens@));
    if en_com {
        return Ok(!termina(&t, &marca));
    }
    if empieza(&t, &marca) {
        return Ok(!termina(&t, &marca));
    }
    let c = match buscar(&t, '#', 0) {
        Some(p) => {
            let f = fin_sin_espacio(&t, 0, p);
            copiar(&t, 0, f)
        },
        None => t,
    };
    if c.len() == 0 {
        return Ok(false);
    }
    let ghost antes = vista_tokens(tokens@);
    if iguales(&c, &vec!['i', 'n', 'i', 'c', 'i', 'a', 'r', '<', '/', '>']) {
        proof {
            lema_vista_push(tokens@, Token::Iniciar);
            assert(antes + seq![Tok::Iniciar] =~= antes.push(Tok::Iniciar));
        }
        tokens.push(Token::Iniciar);
        return Ok(false);
    }
    if iguales(&c, &vec!['<', '/', '>']) {
        proof {
            lema_vista_push(tokens@, Token::Fin);
            assert(antes + seq![Tok::Fin] =~= antes.push(Tok::Fin));
        }
        tokens.push(Token::Fin);
        return Ok(false);
    }
    if empieza(&c, &vec!['i', 'm', 'p', 'r', 'i', 'm', 'i', 'r', '(']) {
        match buscar_cierre(&c, 9) {
            Some(f) => {
                let x = Token::Texto(texto_de(&c, 9, f));
                proof {
                    lema_vista_push(tokens@, Token::Imprimir);
                    lema_vista_push(tokens@.push(Token::Imprimir), x);
                    assert(antes + seq![Tok::Imprimir, x@] =~= antes.push(Tok::Imprimir).push(x@));
                }
                tokens.push(Token::Imprimir);
                tokens.push(x);
                return Ok(false);
            },
            None => {
                return Err(ErrorLexico::ImprimirSinCierre(num));
            },
        }
    }
    if empieza(&c, &vec!['v', 'a', 'r', ' ']) {
        proof {
            lema_vista_push(tokens@, Token::Var);
            lema_combinar(antes, Tok::Var, fragmento(c@, 4, num));
        }
        tokens.push(Token::Var);
        match tokenize_expresion(&c, 4, num, tokens) {
            Ok(()) => {
                return Ok(false);
            },
            Err(e) => {
                return Err(e);
            },
        }
    }
    if empieza(&c, &vec!['m', 'u', 't', 'a', 'r', ' ']) {
        proof {
            lema_vista_push(tokens@, Token::Mutar);
            lema_combinar(antes, Tok::Mutar, fragmento(c@, 6, num));
        }
        tokens.push(Token::Mutar);
        match tokenize_expresion(&c, 6, num, tokens) {
            Ok(()) => {
                return Ok(false);
            },
            Err(e) => {
                return Err(e);
            },
        }
    }
    Err(ErrorLexico::LineaDesconocida(num))
}

pub open spec fn res_tokens(r: Result<Vec<Token>, ErrorLexico>) -> Result<Seq<Tok>, ErrorLexico> {
    match r {
        Ok(v) => Ok(vista_tokens(v@)),
        Err(e) => Err(e),
    }
}

/// Turns a source text into its tokens, line by line: comments are dropped,
/// block markers and `imprimir(...)` lines are recognised, and the rest of
/// a `var` or `mutar` line is read as an expression fragment.
pub fn tokenize(source: &str) -> (r: Result<Vec<Token>, ErrorLexico>)
    ensures
        res_tokens(r) == tokenizar(source@),
{
    let s = caracteres(source);
    let mut tokens: Vec<Token> = Vec::new();
    let mut en_com = false;
    let mut leidas: usize = 0;
    let mut ini: usize = 0;
    assert(vista_tokens(tokens@) =~= seq![]);
    assert(seq![] + tokenizar(s@)->Ok_0 =~= tokenizar(s@)->Ok_0);
    while ini < s.len()
        invariant
            ini <= s.len(),
            leidas <= ini,
            s@ == source@,
            tokenizar(s@) == combinar(vista_tokens(tokens@), lexar(s@, ini as int, en_com, (leidas + 1) as usize)),
        decreases s.len() - ini,
    {
        let mut f: usize = ini;
        while f < s.len() && s[f] != '\n'
            invariant
                ini <= f <= s.len(),
                fin_linea(s@, ini as int) == fin_linea(s@, f as int),
            decreases s.len() - f,
        {
            f += 1;
        }
        let linea = copiar(&s, ini, f);
        let ghost antes = vista_tokens(tokens@);
        let ghost com = en_com;
        match tokenize_linea(&linea, en_com, leidas + 1, &mut tokens) {
            Ok(c) => {
                en_com = c;
            },
            Err(e) => {
                return Err(e);
            },
        }
        proof {
            let ts = tokens_linea(linea@, com, (leidas + 1) as usize)->Ok_0;
            if f < s.len() {
                lema_combinar_seq(antes, ts, lexar(s@, f + 1, en_com, (leidas + 2) as usize));
            } else {
                assert(vista_tokens(tokens@) + seq![] =~= vista_tokens(tokens@));
            }
        }
        if f < s.len() {
            ini = f + 1;
            leidas += 1;
        } else {
            ini = f;
        }
    }
    Ok(tokens)
}

} // verus!
