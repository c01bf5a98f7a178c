//! The structure of GMPL model files.
//!
//! A file is read line by line, each line trimmed. `var ...` declares the
//! next variable. `maximize ...: expr` and `minimize ...: expr` set the
//! objective, `subject to ...: expr cmp rhs` adds a constraint; the text
//! used is the one between the first and the second colon. Lines that are
//! empty, start with `#`, or start with none of these words are skipped.
//! An expression is a sum of terms `c * xK`, `-xK` or `xK`, where `xK` is the
//! `K`-th declared variable (any one-letter prefix is accepted). Numbers are
//! kept as the text that was written.
use crate::constraint::Cmp;
use crate::mps::{bytes_view, copy_range, line_end};
use crate::objective::Sense;
use crate::text::{contains, pieces, split_pieces, trim, trim_bytes, find, lemma_index_of_bounds, index_of};
use vstd::prelude::*;

verus! {

/// ASCII lower case of a byte.
pub open spec fn lower(b: u8) -> u8 {
    if 65 <= b <= 90 {
        (b + 32) as u8
    } else {
        b
    }
}

/// `s` begins with `p`, byte for byte.
pub open spec fn starts_with(s: Seq<u8>, p: Seq<u8>) -> bool {
    p.len() <= s.len() && s.subrange(0, p.len() as int) == p
}

/// `s` begins with the lower-case word `p`, in any letter case.
pub open spec fn starts_with_word(s: Seq<u8>, p: Seq<u8>) -> bool {
    p.len() <= s.len() && forall|k: int| 0 <= k < p.len() ==> lower(s[k]) == p[k]
}

/// `s` without the `;` at its end, however many there are.
pub open spec fn strip_semicolons(s: Seq<u8>) -> Seq<u8>
    decreases s.len(),
{
    if s.len() > 0 && s.last() == 59 {
        strip_semicolons(s.drop_last())
    } else {
        s
    }
}

pub open spec fn is_digit(b: u8) -> bool {
    48 <= b <= 57
}

/// `s` is a non-empty run of decimal digits.
pub open spec fn all_digits(s: Seq<u8>) -> bool {
    s.len() > 0 && forall|k: int| 0 <= k < s.len() ==> is_digit(s[k])
}

/// The number that the digits `s` write.
pub open spec fn digits_value(s: Seq<u8>) -> nat
    decreases s.len(),
{
    if s.len() == 0 {
        0
    } else {
        digits_value(s.drop_last()) * 10 + (s.last() - 48) as nat
    }
}

pub open spec fn colon() -> Seq<u8> {
    seq![58u8]
}

pub open spec fn plus() -> Seq<u8> {
    seq![43u8]
}

pub open spec fn star() -> Seq<u8> {
    seq![42u8]
}

/// The trimmed text between the first and the second colon of `t`, or
/// nothing when `t` has no colon.
pub open spec fn after_colon(t: Seq<u8>) -> Seq<u8> {
    let ps = pieces(t, colon());
    if ps.len() >= 2 {
        trim(ps[1])
    } else {
        Seq::empty()
    }
}

/// A coefficient as written.
pub enum CoeffText {
    One,
    MinusOne,
    Written(Seq<u8>),
}

/// What can be wrong with a GMPL file.
pub enum GmplFault {
    /// A variable name is not a letter followed by digits.
    InvalidVariable(Seq<u8>),
    /// A variable number is zero or larger than the number declared so far.
    UnknownVariable(Seq<u8>),
    /// A constraint has no `<=`, `>=` or `=`.
    InvalidConstraint,
    /// A constraint has its relation more than once.
    InvalidConstraintFormat,
}

/// The coefficient of a term and the name of its variable.
pub open spec fn term_parts(tok: Seq<u8>) -> (CoeffText, Seq<u8>) {
    if contains(tok, star()) {
        let ps = pieces(tok, star());
        (CoeffText::Written(trim(ps[0])), ps[1])
    } else if tok.len() > 0 && tok[0] == 45 {
        (CoeffText::MinusOne, tok.drop_first())
    } else {
        (CoeffText::One, tok)
    }
}

/// The index (from zero) of the variable named `name` when `n_vars`
/// variables are declared.
pub open spec fn var_index(name: Seq<u8>, n_vars: nat) -> Result<nat, GmplFault> {
    var_index_of_stripped(strip_semicolons(trim(name)), n_vars)
}

/// One term, from its trimmed, non-empty text.
pub open spec fn term_of(tok: Seq<u8>, n_vars: nat) -> Result<(CoeffText, nat), GmplFault> {
    let (c, name) = term_parts(tok);
    match var_index(name, n_vars) {
        Ok(j) => Ok((c, j)),
        Err(e) => Err(e),
    }
}

/// The terms of the pieces `toks` of an expression, in order; empty pieces
/// are skipped and the first fault stops the reading.
pub open spec fn terms_of(toks: Seq<Seq<u8>>, n_vars: nat) -> Result<Seq<(CoeffText, nat)>, GmplFault>
    decreases toks.len(),
{
    if toks.len() == 0 {
        Ok(Seq::empty())
    } else {
        match terms_of(toks.drop_last(), n_vars) {
            Err(e) => Err(e),
            Ok(ts) => {
                let tok = trim(toks.last());
                if tok.len() == 0 {
                    Ok(ts)
                } else {
                    match term_of(tok, n_vars) {
                        Err(e) => Err(e),
                        Ok(t) => Ok(ts.push(t)),
                    }
                }
            },
        }
    }
}

/// The terms of the expression `e`: its pieces between `+` signs.
pub open spec fn expression(e: Seq<u8>, n_vars: nat) -> Result<Seq<(CoeffText, nat)>, GmplFault> {
    terms_of(pieces(e, plus()), n_vars)
}

/// A coefficient as written.
#[derive(Debug, Clone)]
pub enum Coeff {
    One,
    MinusOne,
    /// The text of a number, as written before `*`.
    Written(Vec<u8>),
}

/// `coeff * x_var`, with `var` counted from zero.
#[derive(Debug, Clone)]
pub struct Term {
    pub coeff: Coeff,
    pub var: usize,
}

/// A fault of a GMPL file, with the offending name where there is one.
#[derive(Debug, Clone)]
pub enum GmplError {
    InvalidVariable(Vec<u8>),
    UnknownVariable(Vec<u8>),
    InvalidConstraint,
    InvalidConstraintFormat,
}

pub open spec fn coeff_view(c: Coeff) -> CoeffText {
    match c {
        Coeff::One => CoeffText::One,
        Coeff::MinusOne => CoeffText::MinusOne,
        Coeff::Written(t) => CoeffText::Written(t@),
    }
}

pub open spec fn term_view(t: Term) -> (CoeffText, nat) {
    (coeff_view(t.coeff), t.var as nat)
}

pub open spec fn terms_view(ts: Seq<Term>) -> Seq<(CoeffText, nat)> {
    ts.map_values(|t: Term| term_view(t))
}

pub open spec fn error_view(e: GmplError) -> GmplFault {
    match e {
        GmplError::InvalidVariable(v) => GmplFault::InvalidVariable(v@),
        GmplError::UnknownVariable(v) => GmplFault::UnknownVariable(v@),
        GmplError::InvalidConstraint => GmplFault::InvalidConstraint,
        GmplError::InvalidConstraintFormat => GmplFault::InvalidConstraintFormat,
    }
}

/// A text with `pat` in it has at least two pieces.
proof fn lemma_pieces_when_contained(s: Seq<u8>, pat: Seq<u8>)
    requires
        pat.len() > 0,
        contains(s, pat),
    ensures
        pieces(s, pat).len() >= 2,
        pieces(s, pat)[0] == s.subrange(0, index_of(s, pat, 0)),
{
    lemma_index_of_bounds(s, pat, 0);
    let k = index_of(s, pat, 0);
    let j = k + pat.len();
    lemma_pieces_nonempty(s, pat, j);
}

proof fn lemma_pieces_nonempty(s: Seq<u8>, pat: Seq<u8>, i: int)
    requires
        pat.len() > 0,
        0 <= i <= s.len(),
    ensures
        crate::text::pieces_from(s, pat, i).len() >= 1,
{
    lemma_index_of_bounds(s, pat, i);
}

/// `s` without its trailing `;`.
fn strip_semicolons_bytes(s: Vec<u8>) -> (r: Vec<u8>)
    ensures
        r@ == strip_semicolons(s@),
{
    let mut r = s;
    while r.len() > 0 && r[r.len() - 1] == 59
        invariant
            strip_semicolons(r@) == strip_semicolons(s@),
        decreases r@.len(),
    {
        let ghost before = r@;
        r.pop();
        assert(r@ =~= before.drop_last());
    }
    r
}

proof fn lemma_digits_step(d: Seq<u8>, k: int)
    requires
        0 <= k < d.len(),
    ensures
        digits_value(d.take(k + 1)) == digits_value(d.take(k)) * 10 + (d[k] - 48) as nat,
{
    assert(d.take(k + 1).drop_last() =~= d.take(k));
}

/// The variable index that `v` (already trimmed, without `;`) names.
fn read_index(v: Vec<u8>, n_vars: usize) -> (r: Result<usize, GmplError>)
    ensures
        match var_index_of_stripped(v@, n_vars as nat) {
            Ok(j) => r is Ok && r.unwrap() as nat == j,
            Err(e) => r is Err && error_view(r->Err_0) == e,
        },
{
    let len = v.len();
    if len == 0 {
        return Err(GmplError::InvalidVariable(v));
    }
    let d = copy_range(v.as_slice(), 1, len);
    assert(d@ =~= v@.drop_first());
    let mut k: usize = 0;
    while k < d.len()
        invariant
            k <= d@.len(),
            d@ == v@.drop_first(),
            forall|q: int| 0 <= q < k ==> is_digit(d@[q]),
        decreases d@.len() - k,
    {
        if d[k] < 48 || d[k] > 57 {
            assert(!is_digit(d@[k as int]));
            return Err(GmplError::InvalidVariable(v));
        }
        k = k + 1;
    }
    if d.len() == 0 {
        return Err(GmplError::InvalidVariable(v));
    }
    let bound = n_vars as u128;
    let mut acc: u128 = 0;
    let mut big = false;
    k = 0;
    assert(d@.take(0) =~= Seq::<u8>::empty());
    while k < d.len()
        invariant
            k <= d@.len(),
            bound == n_vars as u128,
            all_digits(d@),
            d@ == v@.drop_first(),
            !big ==> acc as nat == digits_value(d@.take(k as int)) && acc <= bound,
            big ==> digits_value(d@.take(k as int)) > n_vars as nat,
        decreases d@.len() - k,
    {
        proof {
            lemma_digits_step(d@, k as int);
        }
        if !big {
            let next = acc * 10 + (d[k] - 48) as u128;
            if next > bound {
                big = true;
            } else {
                acc = next;
            }
        }
        k = k + 1;
    }
    assert(d@.take(d@.len() as int) =~= d@);
    if big || acc == 0 {
        return Err(GmplError::UnknownVariable(v));
    }
    Ok((acc - 1) as usize)
}

/// `var_index` once the name is trimmed and stripped of `;`.
pub open spec fn var_index_of_stripped(v: Seq<u8>, n_vars: nat) -> Result<nat, GmplFault> {
    if v.len() == 0 || !all_digits(v.drop_first()) {
        Err(GmplFault::InvalidVariable(v))
    } else if digits_value(v.drop_first()) == 0 || digits_value(v.drop_first()) > n_vars {
        Err(GmplFault::UnknownVariable(v))
    } else {
        Ok((digits_value(v.drop_first()) - 1) as nat)
    }
}

/// One term from its trimmed, non-empty text.
fn read_term(tok: &Vec<u8>, n_vars: usize) -> (r: Result<Term, GmplError>)
    ensures
        match term_of(tok@, n_vars as nat) {
            Ok(t) => r is Ok && term_view(r.unwrap()) == t,
            Err(e) => r is Err && error_view(r->Err_0) == e,
        },
{
    let star_pat: Vec<u8> = vec![42u8];
    assert(star_pat@ =~= star());
    let n = tok.len();
    let k = find(tok, &star_pat, 0);
    let coeff: Coeff;
    let name: Vec<u8>;
    if k < n {
        proof {
            lemma_pieces_when_contained(tok@, star());
        }
        let ps = split_pieces(tok, &star_pat);
        assert(bytes_view(ps@)[0] == ps@[0]@ && bytes_view(ps@)[1] == ps@[1]@);
        coeff = Coeff::Written(trim_bytes(&ps[0]));
        name = copy_range(ps[1].as_slice(), 0, ps[1].len());
        assert(name@ =~= ps@[1]@);
    } else if n > 0 && tok[0] == 45 {
        coeff = Coeff::MinusOne;
        name = copy_range(tok.as_slice(), 1, n);
        assert(name@ =~= tok@.drop_first());
    } else {
        coeff = Coeff::One;
        name = copy_range(tok.as_slice(), 0, n);
        assert(name@ =~= tok@);
    }
    assert(coeff_view(coeff) == term_parts(tok@).0 && name@ == term_parts(tok@).1);
    let v = strip_semicolons_bytes(trim_bytes(&name));
    match read_index(v, n_vars) {
        Ok(j) => Ok(Term { coeff, var: j }),
        Err(e) => Err(e),
    }
}

proof fn lemma_terms_err(toks: Seq<Seq<u8>>, k: int, n_vars: nat)
    requires
        0 <= k <= toks.len(),
        terms_of(toks.take(k), n_vars) is Err,
    ensures
        terms_of(toks, n_vars) == terms_of(toks.take(k), n_vars),
    decreases toks.len() - k,
{
    if k < toks.len() {
        assert(toks.take(k + 1).drop_last() =~= toks.take(k));
        lemma_terms_err(toks, k + 1, n_vars);
    } else {
        assert(toks.take(k) =~= toks);
    }
}

/// The terms of expression `e`.
fn read_expression(e: &Vec<u8>, n_vars: usize) -> (r: Result<Vec<Term>, GmplError>)
    ensures
        match expression(e@, n_vars as nat) {
            Ok(ts) => r is Ok && terms_view(r.unwrap()@) == ts,
            Err(x) => r is Err && error_view(r->Err_0) == x,
        },
{
    let plus_pat: Vec<u8> = vec![43u8];
    assert(plus_pat@ =~= plus());
    let toks = split_pieces(e, &plus_pat);
    let ghost tv = bytes_view(toks@);
    let mut out: Vec<Term> = Vec::new();
    let mut j: usize = 0;
    assert(tv.take(0) =~= Seq::<Seq<u8>>::empty());
    assert(terms_view(out@) =~= Seq::<(CoeffText, nat)>::empty());
    while j < toks.len()
        invariant
            tv == bytes_view(toks@),
            tv == pieces(e@, plus()),
            j <= toks@.len(),
            terms_of(tv.take(j as int), n_vars as nat) == Ok::<Seq<(CoeffText, nat)>, GmplFault>(terms_view(out@)),
        decreases toks@.len() - j,
    {
        let tok = trim_bytes(&toks[j]);
        proof {
            assert(tv.take(j as int + 1).drop_last() =~= tv.take(j as int));
            assert(tv.take(j as int + 1).last() == toks@[j as int]@);
        }
        if tok.len() > 0 {
            match read_term(&tok, n_vars) {
                Ok(t) => {
                    let ghost before = terms_view(out@);
                    out.push(t);
                    assert(terms_view(out@) =~= before.push(term_view(t)));
                },
                Err(x) => {
                    proof {
                        lemma_terms_err(tv, j as int + 1, n_vars as nat);
                    }
                    return Err(x);
                },
            }
        }
        j = j + 1;
    }
    assert(tv.take(toks@.len() as int) =~= tv);
    Ok(out)
}

pub open spec fn leq_sign() -> Seq<u8> {
    seq![60u8, 61]
}

pub open spec fn geq_sign() -> Seq<u8> {
    seq![62u8, 61]
}

pub open spec fn eq_sign() -> Seq<u8> {
    seq![61u8]
}

/// The relation of a constraint and how it is written: `<=` if it occurs,
/// else `>=`, else `=`.
pub open spec fn relation(rest: Seq<u8>) -> Option<(Cmp, Seq<u8>)> {
    if contains(rest, leq_sign()) {
        Some((Cmp::Leq, leq_sign()))
    } else if contains(rest, geq_sign()) {
        Some((Cmp::Geq, geq_sign()))
    } else if contains(rest, eq_sign()) {
        Some((Cmp::Eq, eq_sign()))
    } else {
        None
    }
}

/// A constraint `lhs cmp rhs`: its terms, relation and right-hand side text.
pub open spec fn constraint_of(rest: Seq<u8>, n_vars: nat) -> Result<
    (Seq<(CoeffText, nat)>, Cmp, Seq<u8>),
    GmplFault,
> {
    match relation(rest) {
        None => Err(GmplFault::InvalidConstraint),
        Some((c, pat)) => {
            let ps = pieces(rest, pat);
            if ps.len() != 2 {
                Err(GmplFault::InvalidConstraintFormat)
            } else {
                match expression(trim(ps[0]), n_vars) {
                    Err(e) => Err(e),
                    Ok(ts) => Ok((ts, c, strip_semicolons(trim(ps[1])))),
                }
            }
        },
    }
}

/// A constraint of the model.
#[derive(Debug, Clone)]
pub struct GmplConstraint {
    pub terms: Vec<Term>,
    pub cmp: Cmp,
    /// The right-hand side as written.
    pub rhs: Vec<u8>,
}

pub open spec fn constraint_view(c: GmplConstraint) -> (Seq<(CoeffText, nat)>, Cmp, Seq<u8>) {
    (terms_view(c.terms@), c.cmp, c.rhs@)
}

fn read_constraint(rest: &Vec<u8>, n_vars: usize) -> (r: Result<GmplConstraint, GmplError>)
    ensures
        match constraint_of(rest@, n_vars as nat) {
            Ok(c) => r is Ok && constraint_view(r.unwrap()) == c,
            Err(x) => r is Err && error_view(r->Err_0) == x,
        },
{
    let leq: Vec<u8> = vec![60u8, 61];
    let geq: Vec<u8> = vec![62u8, 61];
    let eq: Vec<u8> = vec![61u8];
    assert(leq@ =~= leq_sign() && geq@ =~= geq_sign() && eq@ =~= eq_sign());
    let n = rest.len();
    let (cmp, pat) = if find(rest, &leq, 0) < n {
        (Cmp::Leq, leq)
    } else if find(rest, &geq, 0) < n {
        (Cmp::Geq, geq)
    } else if find(rest, &eq, 0) < n {
        (Cmp::Eq, eq)
    } else {
        return Err(GmplError::InvalidConstraint);
    };
    assert(relation(rest@) == Some((cmp, pat@)));
    let ps = split_pieces(rest, &pat);
    if ps.len() != 2 {
        return Err(GmplError::InvalidConstraintFormat);
    }
    assert(bytes_view(ps@)[0] == ps@[0]@ && bytes_view(ps@)[1] == ps@[1]@);
    let lhs = trim_bytes(&ps[0]);
    match read_expression(&lhs, n_vars) {
        Err(x) => Err(x),
        Ok(terms) => {
            let rhs = strip_semicolons_bytes(trim_bytes(&ps[1]));
            Ok(GmplConstraint { terms, cmp, rhs })
        },
    }
}

pub open spec fn var_word() -> Seq<u8> {
    seq![118u8, 97, 114, 32]
}

pub open spec fn maximize_word() -> Seq<u8> {
    seq![109u8, 97, 120, 105, 109, 105, 122, 101]
}

pub open spec fn minimize_word() -> Seq<u8> {
    seq![109u8, 105, 110, 105, 109, 105, 122, 101]
}

pub open spec fn subject_to_word() -> Seq<u8> {
    seq![115u8, 117, 98, 106, 101, 99, 116, 32, 116, 111]
}

/// What a GMPL file says: how many variables it declares, its objective
/// (the last one written) and its constraints in order.
pub struct GmplView {
    pub n_vars: nat,
    pub objective: Option<(Sense, Seq<(CoeffText, nat)>)>,
    pub constraints: Seq<(Seq<(CoeffText, nat)>, Cmp, Seq<u8>)>,
}

/// Reading one line.
pub open spec fn line_step(st: Result<GmplView, GmplFault>, line: Seq<u8>) -> Result<GmplView, GmplFault> {
    match st {
        Err(e) => Err(e),
        Ok(v) => {
            let t = trim(line);
            if t.len() == 0 || t[0] == 35 {
                Ok(v)
            } else if starts_with(t, var_word()) {
                Ok(GmplView { n_vars: v.n_vars + 1, ..v })
            } else if starts_with_word(t, maximize_word()) || starts_with_word(t, minimize_word()) {
                let sense = if starts_with_word(t, maximize_word()) {
                    Sense::Maximize
                } else {
                    Sense::Minimize
                };
                match expression(after_colon(t), v.n_vars) {
                    Err(e) => Err(e),
                    Ok(ts) => Ok(GmplView { objective: Some((sense, ts)), ..v }),
                }
            } else if starts_with_word(t, subject_to_word()) {
                match constraint_of(after_colon(t), v.n_vars) {
                    Err(e) => Err(e),
                    Ok(c) => Ok(GmplView { constraints: v.constraints.push(c), ..v }),
                }
            } else {
                Ok(v)
            }
        },
    }
}

/// The lines of `s` from the one that starts at `i`, without their `\n`.
pub open spec fn lines_from(s: Seq<u8>, i: int) -> Seq<Seq<u8>>
    decreases s.len() - i,
{
    if i < 0 || i >= s.len() {
        Seq::empty()
    } else {
        let e = line_end(s, i);
        if e < i || e >= s.len() {
            seq![s.subrange(i, s.len() as int)]
        } else {
            seq![s.subrange(i, e)] + lines_from(s, e + 1)
        }
    }
}

/// The state after reading `lines` in order.
pub open spec fn read_lines(lines: Seq<Seq<u8>>) -> Result<GmplView, GmplFault>
    decreases lines.len(),
{
    if lines.len() == 0 {
        Ok(GmplView { n_vars: 0, objective: None, constraints: Seq::empty() })
    } else {
        line_step(read_lines(lines.drop_last()), lines.last())
    }
}

/// What the GMPL file `text` says, or its first fault.
pub open spec fn read_gmpl_spec(text: Seq<u8>) -> Result<GmplView, GmplFault> {
    read_lines(lines_from(text, 0))
}

/// The objective of a GMPL model.
#[derive(Debug, Clone)]
pub struct GmplObjective {
    pub sense: Sense,
    pub terms: Vec<Term>,
}

/// The contents of a GMPL file.
#[derive(Debug, Clone)]
pub struct GmplDocument {
    /// Variables are numbered from zero in order of declaration.
    pub n_vars: usize,
    pub objective: Option<GmplObjective>,
    pub constraints: Vec<GmplConstraint>,
}

impl GmplDocument {
    pub open spec fn view(&self) -> GmplView {
        GmplView {
            n_vars: self.n_vars as nat,
            objective: match self.objective {
                Some(o) => Some((o.sense, terms_view(o.terms@))),
                None => None,
            },
            constraints: self.constraints@.map_values(|c: GmplConstraint| constraint_view(c)),
        }
    }
}

proof fn lemma_lines_err(ls: Seq<Seq<u8>>, k: int)
    requires
        0 <= k <= ls.len(),
        read_lines(ls.take(k)) is Err,
    ensures
        read_lines(ls) == read_lines(ls.take(k)),
    decreases ls.len() - k,
{
    if k < ls.len() {
        assert(ls.take(k + 1).drop_last() =~= ls.take(k));
        lemma_lines_err(ls, k + 1);
    } else {
        assert(ls.take(k) =~= ls);
    }
}

/// Whether `t` begins with `p`.
fn starts_with_bytes(t: &Vec<u8>, p: &Vec<u8>) -> (r: bool)
    ensures
        r == starts_with(t@, p@),
{
    if p.len() > t.len() {
        return false;
    }
    let mut k: usize = 0;
    while k < p.len()
        invariant
            p@.len() <= t@.len(),
            k <= p@.len(),
            forall|q: int| 0 <= q < k ==> t@[q] == p@[q],
        decreases p@.len() - k,
    {
        if t[k] != p[k] {
            assert(t@.subrange(0, p@.len() as int)[k as int] != p@[k as int]);
            return false;
        }
        k = k + 1;
    }
    assert(t@.subrange(0, p@.len() as int) =~= p@);
    true
}

fn lower_byte(b: u8) -> (r: u8)
    ensures
        r == lower(b),
{
    if 65 <= b && b <= 90 {
        b + 32
    } else {
        b
    }
}

/// Whether `t` begins with the lower-case word `p` in any letter case.
fn starts_with_word_bytes(t: &Vec<u8>, p: &Vec<u8>) -> (r: bool)
    ensures
        r == starts_with_word(t@, p@),
{
    if p.len() > t.len() {
        return false;
    }
    let mut k: usize = 0;
    while k < p.len()
        invariant
            p@.len() <= t@.len(),
            k <= p@.len(),
            forall|q: int| 0 <= q < k ==> lower(t@[q]) == p@[q],
        decreases p@.len() - k,
    {
        if lower_byte(t[k]) != p[k] {
            return false;
        }
        k = k + 1;
    }
    true
}

fn after_colon_bytes(t: &Vec<u8>) -> (r: Vec<u8>)
    ensures
        r@ == after_colon(t@),
{
    let colon_pat: Vec<u8> = vec![58u8];
    assert(colon_pat@ =~= colon());
    let ps = split_pieces(t, &colon_pat);
    if ps.len() >= 2 {
        assert(bytes_view(ps@)[1] == ps@[1]@);
        trim_bytes(&ps[1])
    } else {
        Vec::new()
    }
}

/// Reads the structure of a GMPL file: the variables it declares, its
/// objective and its constraints, with coefficients and right-hand sides as
/// the text that spells them; or the first fault, line by line.
pub fn read_gmpl(text: &[u8]) -> (r: Result<GmplDocument, GmplError>)
    ensures
        match read_gmpl_spec(text@) {
            Ok(v) => r is Ok && r.unwrap().view() == v,
            Err(e) => r is Err && error_view(r->Err_0) == e,
        },
{
    let n = text.len();
    let var_kw: Vec<u8> = vec![118u8, 97, 114, 32];
    let max_kw: Vec<u8> = vec![109u8, 97, 120, 105, 109, 105, 122, 101];
    let min_kw: Vec<u8> = vec![109u8, 105, 110, 105, 109, 105, 122, 101];
    let st_kw: Vec<u8> = vec![115u8, 117, 98, 106, 101, 99, 116, 32, 116, 111];
    assert(var_kw@ =~= var_word() && max_kw@ =~= maximize_word() && min_kw@ =~= minimize_word());
    assert(st_kw@ =~= subject_to_word());
    let mut doc = GmplDocument { n_vars: 0, objective: None, constraints: Vec::new() };
    let ghost all = lines_from(text@, 0);
    let ghost mut seen: Seq<Seq<u8>> = Seq::empty();
    let mut i: usize = 0;
    assert(doc.view().constraints =~= Seq::<(Seq<(CoeffText, nat)>, Cmp, Seq<u8>)>::empty());
    assert(seen + lines_from(text@, 0) =~= all);
    while i < n
        invariant
            n == text@.len(),
            i <= n,
            doc.n_vars <= i,
            var_kw@ == var_word(),
            max_kw@ == maximize_word(),
            min_kw@ == minimize_word(),
            st_kw@ == subject_to_word(),
            all == lines_from(text@, 0),
            seen + lines_from(text@, i as int) == all,
            read_lines(seen) == Ok::<GmplView, GmplFault>(doc.view()),
        decreases n - i,
    {
        let mut e: usize = i;
        while e < n && text[e] != 10
            invariant
                n == text@.len(),
                i <= e <= n,
                line_end(text@, e as int) == line_end(text@, i as int),
            decreases n - e,
        {
            e = e + 1;
        }
        let line = copy_range(text, i, e);
        let ghost lv = line@;
        proof {
            let rest = lines_from(text@, i as int);
            assert(line_end(text@, e as int) == e);
            if e < n {
                assert(rest =~= seq![lv] + lines_from(text@, e as int + 1));
            } else {
                assert(rest =~= seq![lv]);
            }
        }
        let ghost v0 = doc.view();
        let ghost seen2 = seen.push(lv);
        proof {
            assert(seen2.drop_last() =~= seen);
        }
        let t = trim_bytes(&line);
        if t.len() == 0 || t[0] == 35 {
        } else if starts_with_bytes(&t, &var_kw) {
            doc.n_vars = doc.n_vars + 1;
            assert(doc.view().constraints == v0.constraints);
        } else if starts_with_word_bytes(&t, &max_kw) || starts_with_word_bytes(&t, &min_kw) {
            let sense = if starts_with_word_bytes(&t, &max_kw) {
                Sense::Maximize
            } else {
                Sense::Minimize
            };
            let body = after_colon_bytes(&t);
            match read_expression(&body, doc.n_vars) {
                Ok(terms) => {
                    doc.objective = Some(GmplObjective { sense, terms });
                    assert(doc.view().constraints == v0.constraints);
                },
                Err(x) => {
                    proof {
                        assert(seen2 + lines_from(text@, if e < n { e as int + 1 } else { n as int }) =~= all);
                        assert(all.take(seen2.len() as int) =~= seen2);
                        lemma_lines_err(all, seen2.len() as int);
                    }
                    return Err(x);
                },
            }
        } else if starts_with_word_bytes(&t, &st_kw) {
            let rest = after_colon_bytes(&t);
            match read_constraint(&rest, doc.n_vars) {
                Ok(c) => {
                    doc.constraints.push(c);
                    assert(doc.view().constraints =~= v0.constraints.push(constraint_view(c)));
                },
                Err(x) => {
                    proof {
                        assert(seen2 + lines_from(text@, if e < n { e as int + 1 } else { n as int }) =~= all);
                        assert(all.take(seen2.len() as int) =~= seen2);
                        lemma_lines_err(all, seen2.len() as int);
                    }
                    return Err(x);
                },
            }
        }
        proof {
            assert(read_lines(seen2) == line_step(read_lines(seen), lv));
            assert(read_lines(seen2) == Ok::<GmplView, GmplFault>(doc.view()));
            if e < n {
                assert(seen2 + lines_from(text@, e as int + 1) =~= seen + lines_from(text@, i as int));
            } else {
                assert(seen2 =~= seen + lines_from(text@, i as int));
                assert(seen2 + lines_from(text@, n as int) =~= seen2);
            }
            seen = seen2;
        }
        if e < n {
            i = e + 1;
        } else {
            i = n;
        }
    }
    assert(seen =~= all);
    Ok(doc)
}

} // verus!
