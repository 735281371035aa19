//! The solver script: finite-field terms, assertions over them, and the
//! printer that accumulates declarations and commands.

use vstd::prelude::*;

verus! {

/// The kind of expression that a term was made from.
#[derive(Debug, Clone, Copy, PartialEq, Eq, Structural)]
pub enum NodeType {
    Constant,
    Advice,
    Instance,
    Fixed,
    Negated,
    Mult,
    Add,
    Scaled,
    Poly,
}

/// The relation or connective of an assertion.
#[derive(Debug, Clone, Copy, PartialEq, Eq, Structural)]
pub enum Operation {
    Equal,
    NotEqual,
    And,
    Or,
}

/// A term of the solver's logic with the kind of expression it came from.
/// Compound terms are kept without their outer parentheses; whoever embeds one
/// adds them, going by the kind.
#[derive(Debug, PartialEq, Eq)]
pub struct SymbolicTerm {
    pub text: String,
    pub kind: NodeType,
}

/// A term as plain values.
pub struct TermView {
    pub text: Seq<char>,
    pub kind: NodeType,
}

impl View for SymbolicTerm {
    type V = TermView;

    open spec fn view(&self) -> TermView {
        TermView { text: self.text@, kind: self.kind }
    }
}

/// The views of a sequence of terms.
pub open spec fn terms_view(v: Seq<SymbolicTerm>) -> Seq<TermView> {
    Seq::new(v.len(), |i: int| v[i]@)
}

/// The views of a sequence of strings.
pub open spec fn names(v: Seq<String>) -> Seq<Seq<char>> {
    Seq::new(v.len(), |i: int| v[i]@)
}

/// Terms of these kinds are a single token or a literal and need no
/// parentheses as operands.
pub open spec fn is_atomic(kind: NodeType) -> bool {
    kind == NodeType::Advice || kind == NodeType::Instance || kind == NodeType::Fixed || kind
        == NodeType::Constant
}

/// A term as it stands as an operand: in parentheses unless atomic.
pub open spec fn operand_text(term: Seq<char>, kind: NodeType) -> Seq<char> {
    if is_atomic(kind) {
        term
    } else {
        "("@ + term + ")"@
    }
}

/// The field literal whose numeral is `value`.
pub open spec fn literal_text(value: Seq<char>) -> Seq<char> {
    "(as ff"@ + value + " F)"@
}

/// The negation of an operand.
pub open spec fn negation_text(term: Seq<char>, kind: NodeType) -> Seq<char> {
    "ff.neg "@ + operand_text(term, kind)
}

/// The application of the field operation `op` (`add` or `mul`) to two
/// operands.
pub open spec fn binary_text(
    op: Seq<char>,
    left: Seq<char>,
    left_kind: NodeType,
    right: Seq<char>,
    right_kind: NodeType,
) -> Seq<char> {
    "ff."@ + op + " "@ + operand_text(left, left_kind) + " "@ + operand_text(right, right_kind)
}

/// The formula that `term` equals the literal `value`.
pub open spec fn equality_text(term: Seq<char>, value: Seq<char>, kind: NodeType) -> Seq<char> {
    "( = "@ + operand_text(term, kind) + " "@ + literal_text(value) + ")"@
}

/// The formula that `term` differs from the literal `value`.
pub open spec fn disequality_text(term: Seq<char>, value: Seq<char>, kind: NodeType) -> Seq<
    char,
> {
    "(not "@ + equality_text(term, value, kind) + ")"@
}

/// The formulas of `parts`, each preceded by a space.
pub open spec fn spaced(parts: Seq<Seq<char>>) -> Seq<char>
    decreases parts.len(),
{
    if parts.len() == 0 {
        Seq::empty()
    } else {
        spaced(parts.drop_last()) + " "@ + parts.last()
    }
}

/// The conjunction of `parts`: `true` of none, the formula itself of one.
pub open spec fn conjunction_text(parts: Seq<Seq<char>>) -> Seq<char> {
    if parts.len() == 0 {
        "true"@
    } else if parts.len() == 1 {
        parts[0]
    } else {
        "(and"@ + spaced(parts) + ")"@
    }
}

/// The disjunction of `parts`: `false` of none, the formula itself of one.
pub open spec fn disjunction_text(parts: Seq<Seq<char>>) -> Seq<char> {
    if parts.len() == 0 {
        "false"@
    } else if parts.len() == 1 {
        parts[0]
    } else {
        "(or"@ + spaced(parts) + ")"@
    }
}

/// The command that asserts `formula`.
pub open spec fn assert_line(formula: Seq<char>) -> Seq<char> {
    "(assert "@ + formula + ")\n"@
}

/// The command that declares the field variable `name`.
pub open spec fn declare_line(name: Seq<char>) -> Seq<char> {
    "(declare-fun "@ + name + " () F)\n"@
}

/// The command that asks for the value of `name`.
pub open spec fn get_value_line(name: Seq<char>) -> Seq<char> {
    "(get-value ("@ + name + "))\n"@
}

/// The lines that open a script over the field of order `prime`.
pub open spec fn header_text(prime: Seq<char>) -> Seq<char> {
    "(set-info :smt-lib-version 2.6)\n(set-info :category \"crafted\")\n(set-option :produce-models true)\n(set-option :incremental true)\n(set-logic QF_FF)\n(define-sort F () (_ FiniteField "@
        + prime + "))\n"@
}

/// Whether a term of this kind needs no parentheses as an operand.
pub fn atomic(kind: NodeType) -> (res: bool)
    ensures
        res == is_atomic(kind),
{
    match kind {
        NodeType::Advice => true,
        NodeType::Instance => true,
        NodeType::Fixed => true,
        NodeType::Constant => true,
        _ => false,
    }
}

/// Writes `term` as an operand.
pub fn operand(term: &String, kind: NodeType) -> (res: String)
    ensures
        res@ == operand_text(term@, kind),
{
    if atomic(kind) {
        term.clone()
    } else {
        let mut s = "(".to_owned();
        s.append(term.as_str());
        s.append(")");
        s
    }
}

/// Writes the field literal whose numeral is `value`.
pub fn literal(value: &String) -> (res: String)
    ensures
        res@ == literal_text(value@),
{
    let mut s = "(as ff".to_owned();
    s.append(value.as_str());
    s.append(" F)");
    s
}

/// Writes the negation of `term`.
pub fn write_negation(term: &String, kind: NodeType) -> (res: String)
    ensures
        res@ == negation_text(term@, kind),
{
    let mut s = "ff.neg ".to_owned();
    let inner = operand(term, kind);
    s.append(inner.as_str());
    s
}

/// Writes the application of the field operation `op` to two terms.
pub fn write_term(
    op: &String,
    left: &String,
    left_kind: NodeType,
    right: &String,
    right_kind: NodeType,
) -> (res: String)
    ensures
        res@ == binary_text(op@, left@, left_kind, right@, right_kind),
{
    let mut s = "ff.".to_owned();
    s.append(op.as_str());
    s.append(" ");
    let l = operand(left, left_kind);
    s.append(l.as_str());
    s.append(" ");
    let r = operand(right, right_kind);
    s.append(r.as_str());
    s
}

/// Writes the formula that `term` equals the literal `value`.
pub fn equality(term: &String, value: &String, kind: NodeType) -> (res: String)
    ensures
        res@ == equality_text(term@, value@, kind),
{
    let mut s = "( = ".to_owned();
    let inner = operand(term, kind);
    s.append(inner.as_str());
    s.append(" ");
    let lit = literal(value);
    s.append(lit.as_str());
    s.append(")");
    s
}

/// Writes the formula that `term` differs from the literal `value`.
pub fn disequality(term: &String, value: &String, kind: NodeType) -> (res: String)
    ensures
        res@ == disequality_text(term@, value@, kind),
{
    let mut s = "(not ".to_owned();
    let inner = equality(term, value, kind);
    s.append(inner.as_str());
    s.append(")");
    s
}

/// Writes the formula that `term` equals, or differs from, the literal
/// `value`. A connective in place of a relation is refused.
pub fn get_assert(term: &String, value: &String, kind: NodeType, op: Operation) -> (res: Option<
    String,
>)
    ensures
        op == Operation::Equal ==> (res matches Some(s) && s@ == equality_text(
            term@,
            value@,
            kind,
        )),
        op == Operation::NotEqual ==> (res matches Some(s) && s@ == disequality_text(
            term@,
            value@,
            kind,
        )),
        op == Operation::And || op == Operation::Or ==> res is None,
{
    match op {
        Operation::Equal => Some(equality(term, value, kind)),
        Operation::NotEqual => Some(disequality(term, value, kind)),
        _ => None,
    }
}

fn write_spaced(parts: &Vec<String>) -> (res: String)
    ensures
        res@ == spaced(names(parts@)),
{
    let mut s = String::new();
    let mut i: usize = 0;
    assert(names(parts@).take(0) =~= Seq::<Seq<char>>::empty());
    while i < parts.len()
        invariant
            i <= parts.len(),
            s@ == spaced(names(parts@).take(i as int)),
        decreases parts.len() - i,
    {
        proof {
            let next = names(parts@).take(i + 1);
            assert(next.drop_last() =~= names(parts@).take(i as int));
            assert(next.last() == parts@[i as int]@);
        }
        s.append(" ");
        s.append(parts[i].as_str());
        i += 1;
    }
    assert(names(parts@).take(parts.len() as int) =~= names(parts@));
    s
}

/// Writes the conjunction of `parts`.
pub fn get_and(parts: &Vec<String>) -> (res: String)
    ensures
        res@ == conjunction_text(names(parts@)),
{
    if parts.len() == 0 {
        "true".to_owned()
    } else if parts.len() == 1 {
        parts[0].clone()
    } else {
        let mut s = "(and".to_owned();
        let inner = write_spaced(parts);
        s.append(inner.as_str());
        s.append(")");
        s
    }
}

/// Writes the disjunction of `parts`.
pub fn get_or(parts: &Vec<String>) -> (res: String)
    ensures
        res@ == disjunction_text(names(parts@)),
{
    if parts.len() == 0 {
        "false".to_owned()
    } else if parts.len() == 1 {
        parts[0].clone()
    } else {
        let mut s = "(or".to_owned();
        let inner = write_spaced(parts);
        s.append(inner.as_str());
        s.append(")");
        s
    }
}

/// Whether `name` is one of `v`.
pub fn contains_name(v: &Vec<String>, name: &String) -> (found: bool)
    ensures
        found == names(v@).contains(name@),
{
    let mut i: usize = 0;
    while i < v.len()
        invariant
            i <= v.len(),
            forall|j: int| 0 <= j < i ==> names(v@)[j] != name@,
        decreases v.len() - i,
    {
        if v[i] == *name {
            assert(names(v@)[i as int] == name@);
            return true;
        }
        i += 1;
    }
    false
}

/// Pushing a string onto a vector pushes its view onto the views.
pub proof fn lemma_names_push(v: Seq<String>, s: String)
    ensures
        names(v.push(s)) == names(v).push(s@),
{
    assert(names(v.push(s)) =~= names(v).push(s@));
}

/// The script under construction: the text so far, the variables declared in
/// it in the order of their declaration, and the number of open scopes.
#[derive(Debug, PartialEq, Eq)]
pub struct Printer {
    pub out: String,
    pub vars: Vec<String>,
    pub depth: usize,
}

/// A printer as plain values.
pub struct PrinterView {
    pub text: Seq<char>,
    pub vars: Seq<Seq<char>>,
    pub depth: nat,
}

impl View for Printer {
    type V = PrinterView;

    open spec fn view(&self) -> PrinterView {
        PrinterView { text: self.out@, vars: names(self.vars@), depth: self.depth as nat }
    }
}

/// The printer after `text` is appended to its script.
pub open spec fn emitted(p: PrinterView, text: Seq<char>) -> PrinterView {
    PrinterView { text: p.text + text, ..p }
}

/// The printer after the variable `name` is declared: unchanged where it was
/// declared before.
pub open spec fn declared(p: PrinterView, name: Seq<char>) -> PrinterView {
    if p.vars.contains(name) {
        p
    } else {
        PrinterView { text: p.text + declare_line(name), vars: p.vars.push(name), ..p }
    }
}

/// The command that opens one scope, and the one that closes one.
pub open spec fn push_line() -> Seq<char> {
    "(push 1)\n"@
}

pub open spec fn pop_line() -> Seq<char> {
    "(pop 1)\n"@
}

/// What is appended to a script to query the solver: a satisfiability check
/// and one request for the value of each variable.
pub open spec fn query_suffix(variables: Seq<Seq<char>>) -> Seq<char>
    decreases variables.len(),
{
    if variables.len() == 0 {
        "(check-sat)\n"@
    } else {
        query_suffix(variables.drop_last()) + get_value_line(variables.last())
    }
}

/// Declaring a variable keeps the declared variables free of duplicates.
pub proof fn lemma_declared_no_duplicates(p: PrinterView, name: Seq<char>)
    requires
        p.vars.no_duplicates(),
    ensures
        declared(p, name).vars.no_duplicates(),
        declared(p, name).vars.contains(name),
        forall|other: Seq<char>| p.vars.contains(other) ==> declared(p, name).vars.contains(other),
{
    if !p.vars.contains(name) {
        let after = p.vars.push(name);
        assert(after[after.len() - 1] == name);
        assert forall|other: Seq<char>| p.vars.contains(other) implies after.contains(other) by {
            let j = choose|j: int| 0 <= j < p.vars.len() && p.vars[j] == other;
            assert(after[j] == other);
        }
    }
}

impl Printer {
    /// A printer with an empty script.
    pub fn new() -> (res: Printer)
        ensures
            res@.text == Seq::<char>::empty(),
            res@.vars == Seq::<Seq<char>>::empty(),
            res@.depth == 0,
    {
        let res = Printer { out: String::new(), vars: Vec::new(), depth: 0 };
        assert(res@.vars =~= Seq::<Seq<char>>::empty());
        res
    }

    /// Appends `text` to the script.
    pub fn emit(&mut self, text: &str)
        ensures
            final(self)@ == emitted(old(self)@, text@),
    {
        self.out.append(text);
    }

    /// Declares the field variable `name`, unless it is declared already.
    pub fn write_var(&mut self, name: String)
        ensures
            final(self)@ == declared(old(self)@, name@),
    {
        if !contains_name(&self.vars, &name) {
            self.out.append("(declare-fun ");
            self.out.append(name.as_str());
            self.out.append(" () F)\n");
            proof {
                lemma_names_push(self.vars@, name);
                assert(self.out@ =~= old(self).out@ + declare_line(name@));
            }
            self.vars.push(name);
        }
    }

    /// Asserts `formula`.
    pub fn write_formula(&mut self, formula: &String)
        ensures
            final(self)@ == emitted(old(self)@, assert_line(formula@)),
    {
        self.out.append("(assert ");
        self.out.append(formula.as_str());
        self.out.append(")\n");
        assert(self.out@ =~= old(self).out@ + assert_line(formula@));
    }

    /// Asserts that `term` equals, or differs from, the literal `value`.
    /// With a connective in place of a relation nothing is written.
    pub fn write_assert(&mut self, term: &String, value: &String, kind: NodeType, op: Operation)
        ensures
            op == Operation::Equal ==> final(self)@ == emitted(
                old(self)@,
                assert_line(equality_text(term@, value@, kind)),
            ),
            op == Operation::NotEqual ==> final(self)@ == emitted(
                old(self)@,
                assert_line(disequality_text(term@, value@, kind)),
            ),
            op == Operation::And || op == Operation::Or ==> final(self)@ == old(self)@,
    {
        match get_assert(term, value, kind, op) {
            Some(formula) => {
                self.write_formula(&formula);
            },
            None => {},
        }
    }

    /// Asserts the conjunction or the disjunction of `parts`. With a relation
    /// in place of a connective nothing is written.
    pub fn write_assert_bool(&mut self, parts: &Vec<String>, op: Operation)
        ensures
            op == Operation::And ==> final(self)@ == emitted(
                old(self)@,
                assert_line(conjunction_text(names(parts@))),
            ),
            op == Operation::Or ==> final(self)@ == emitted(
                old(self)@,
                assert_line(disjunction_text(names(parts@))),
            ),
            op == Operation::Equal || op == Operation::NotEqual ==> final(self)@ == old(self)@,
    {
        match op {
            Operation::And => {
                let formula = get_and(parts);
                self.write_formula(&formula);
            },
            Operation::Or => {
                let formula = get_or(parts);
                self.write_formula(&formula);
            },
            _ => {},
        }
    }

    /// Opens a scope: what is asserted from here on can be taken back.
    pub fn write_push(&mut self)
        requires
            old(self).depth < usize::MAX,
        ensures
            final(self)@ == (PrinterView {
                depth: old(self)@.depth + 1,
                ..emitted(old(self)@, push_line())
            }),
    {
        self.out.append("(push 1)\n");
        self.depth = self.depth + 1;
    }

    /// Closes the innermost open scope.
    pub fn write_pop(&mut self)
        requires
            old(self).depth > 0,
        ensures
            final(self)@ == (PrinterView {
                depth: (old(self)@.depth - 1) as nat,
                ..emitted(old(self)@, pop_line())
            }),
    {
        self.out.append("(pop 1)\n");
        self.depth = self.depth - 1;
    }
}

/// Starts a script over the field of order `prime`.
pub fn write_start(prime: &String) -> (res: Printer)
    ensures
        res@.text == header_text(prime@),
        res@.vars == Seq::<Seq<char>>::empty(),
        res@.depth == 0,
{
    let mut res = Printer::new();
    res.out.append(
        "(set-info :smt-lib-version 2.6)\n(set-info :category \"crafted\")\n(set-option :produce-models true)\n(set-option :incremental true)\n(set-logic QF_FF)\n(define-sort F () (_ FiniteField ",
    );
    res.out.append(prime.as_str());
    res.out.append("))\n");
    assert(res.out@ =~= header_text(prime@));
    res
}

/// The text to hand to the solver: the script, a satisfiability check, and a
/// request for the value of each of `variables`.
pub fn write_query(script: &String, variables: &Vec<String>) -> (res: String)
    ensures
        res@ == script@ + query_suffix(names(variables@)),
{
    let mut s = script.clone();
    s.append("(check-sat)\n");
    let mut i: usize = 0;
    assert(names(variables@).take(0) =~= Seq::<Seq<char>>::empty());
    while i < variables.len()
        invariant
            i <= variables.len(),
            s@ == script@ + query_suffix(names(variables@).take(i as int)),
        decreases variables.len() - i,
    {
        proof {
            let next = names(variables@).take(i + 1);
            assert(next.drop_last() =~= names(variables@).take(i as int));
            assert(next.last() == variables@[i as int]@);
        }
        s.append("(get-value (");
        s.append(variables[i].as_str());
        s.append("))\n");
        assert(s@ =~= script@ + query_suffix(names(variables@).take(i + 1)));
        i += 1;
    }
    assert(names(variables@).take(variables.len() as int) =~= names(variables@));
    s
}

} // verus!
