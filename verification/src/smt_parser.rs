//! The solver's answer: a verdict and, where there is a model, the value of
//! each variable.

use vstd::prelude::*;
use vstd::string::StrSliceExecFns;
use crate::error::AnalyzerError;
use crate::text::{
    decimal, find, find_char, is_digit, lemma_decimal_digits, lemma_find_first, to_chars,
};

verus! {

/// The solver's verdict.
#[derive(Debug, Clone, Copy, PartialEq, Eq, Structural)]
pub enum Satisfiability {
    Satisfiable,
    Unsatisfiable,
    Unknown,
}

/// A field value as the solver prints it: the numeral of the value and the
/// numeral of the field's order.
#[derive(Debug, PartialEq, Eq)]
pub struct FieldElement {
    pub order: String,
    pub element: String,
}

/// A variable of a model with its value.
#[derive(Debug, PartialEq, Eq)]
pub struct Variable {
    pub name: String,
    pub value: FieldElement,
}

/// A verdict with the values of the variables, in the order of the answer.
#[derive(Debug, PartialEq, Eq)]
pub struct ModelResult {
    pub sat: Satisfiability,
    pub result: Vec<Variable>,
}

/// The assignment that a list of variables stands for: each name is mapped to
/// the numeral of its value, a later entry taking the place of an earlier one
/// of the same name.
pub open spec fn assignment(result: Seq<Variable>) -> Map<Seq<char>, Seq<char>>
    decreases result.len(),
{
    if result.len() == 0 {
        Map::empty()
    } else {
        assignment(result.drop_last()).insert(result.last().name@, result.last().value.element@)
    }
}

/// The assignment of a list is that of its last entry for each name.
pub proof fn lemma_assignment_of_last(result: Seq<Variable>, name: Seq<char>, i: int)
    requires
        0 <= i < result.len(),
        result[i].name@ == name,
        forall|j: int| i < j < result.len() ==> result[j].name@ != name,
    ensures
        assignment(result).dom().contains(name),
        assignment(result)[name] == result[i].value.element@,
    decreases result.len(),
{
    if i < result.len() - 1 {
        lemma_assignment_of_last(result.drop_last(), name, i);
    }
}

/// A name that no entry has is not assigned.
pub proof fn lemma_assignment_of_none(result: Seq<Variable>, name: Seq<char>)
    requires
        forall|j: int| 0 <= j < result.len() ==> result[j].name@ != name,
    ensures
        !assignment(result).dom().contains(name),
    decreases result.len(),
{
    if result.len() > 0 {
        lemma_assignment_of_none(result.drop_last(), name);
    }
}

/// The numeral of the value that `result` assigns to `name`, if any.
pub fn lookup<'a>(result: &'a Vec<Variable>, name: &String) -> (res: Option<&'a String>)
    ensures
        match res {
            Some(value) => assignment(result@).dom().contains(name@) && assignment(result@)[name@]
                == value@,
            None => !assignment(result@).dom().contains(name@),
        },
{
    let mut i: usize = result.len();
    while i > 0
        invariant
            i <= result.len(),
            forall|j: int| i <= j < result@.len() ==> result@[j].name@ != name@,
        decreases i,
    {
        i -= 1;
        if result[i].name == *name {
            proof {
                lemma_assignment_of_last(result@, name@, i as int);
            }
            return Some(&result[i].value.element);
        }
    }
    proof {
        lemma_assignment_of_none(result@, name@);
    }
    None
}

/// One line of a model as plain values: the variable, the numeral of its
/// value, and the numeral of the field's order.
pub struct Binding {
    pub name: Seq<char>,
    pub element: Seq<char>,
    pub order: Seq<char>,
}

impl View for Variable {
    type V = Binding;

    open spec fn view(&self) -> Binding {
        Binding { name: self.name@, element: self.value.element@, order: self.value.order@ }
    }
}

/// The views of a list of variables.
pub open spec fn bindings(result: Seq<Variable>) -> Seq<Binding> {
    Seq::new(result.len(), |i: int| result[i]@)
}

/// The verdict that a first line states.
pub open spec fn verdict_of(line: Seq<char>) -> Option<Satisfiability> {
    if line == "sat"@ {
        Some(Satisfiability::Satisfiable)
    } else if line == "unsat"@ {
        Some(Satisfiability::Unsatisfiable)
    } else if line == "unknown"@ {
        Some(Satisfiability::Unknown)
    } else {
        None
    }
}

/// Reads a field value: `#f`, the value's numeral, `m`, the order's numeral,
/// neither numeral empty.
pub open spec fn parse_value(name: Seq<char>, text: Seq<char>) -> Option<Binding> {
    if text.len() < 2 || text[0] != '#' || text[1] != 'f' {
        None
    } else {
        let body = text.subrange(2, text.len() as int);
        let m = find(body, 'm', 0);
        if m == 0 || m + 1 >= body.len() {
            None
        } else {
            Some(
                Binding {
                    name,
                    element: body.subrange(0, m),
                    order: body.subrange(m + 1, body.len() as int),
                },
            )
        }
    }
}

/// Reads one line of a model: `((`, a name, a space, a field value, `))`.
pub open spec fn parse_line(line: Seq<char>) -> Option<Binding> {
    let n = line.len() as int;
    if n < 4 || line[0] != '(' || line[1] != '(' || line[n - 2] != ')' || line[n - 1] != ')' {
        None
    } else {
        let inner = line.subrange(2, n - 2);
        let space = find(inner, ' ', 0);
        if space == 0 || space >= inner.len() {
            None
        } else {
            parse_value(inner.subrange(0, space), inner.subrange(space + 1, inner.len() as int))
        }
    }
}

/// Reads the lines of a model from `from` on. Empty lines are passed over;
/// any other line that is no line of a model makes the whole unreadable.
pub open spec fn parse_lines(s: Seq<char>, from: int) -> Option<Seq<Binding>>
    decreases s.len() - from,
{
    if from < 0 || from >= s.len() {
        Some(Seq::empty())
    } else {
        let end = find(s, '\n', from);
        let line = s.subrange(from, end);
        if from <= end <= s.len() {
            let after = if end < s.len() {
                parse_lines(s, end + 1)
            } else {
                Some(Seq::empty())
            };
            match after {
                None => None,
                Some(rest) => if line.len() == 0 {
                    Some(rest)
                } else {
                    match parse_line(line) {
                        None => None,
                        Some(binding) => Some(seq![binding] + rest),
                    }
                },
            }
        } else {
            None
        }
    }
}

/// Reads the solver's answer: a first line with the verdict, then, where
/// the verdict is `sat`, the lines of the model. After another verdict the
/// rest is not read.
pub open spec fn parse_response(s: Seq<char>) -> Option<(Satisfiability, Seq<Binding>)> {
    let end = find(s, '\n', 0);
    match verdict_of(s.subrange(0, end)) {
        None => None,
        Some(Satisfiability::Satisfiable) => match parse_lines(s, end + 1) {
            None => None,
            Some(lines) => Some((Satisfiability::Satisfiable, lines)),
        },
        Some(verdict) => Some((verdict, Seq::empty())),
    }
}

fn read_value(name: String, text: &str) -> (res: Option<Variable>)
    ensures
        match res {
            Some(v) => parse_value(name@, text@) == Some(v@),
            None => parse_value(name@, text@) is None,
        },
{
    let chars = to_chars(text);
    let n = chars.len();
    if n < 2 || chars[0] != '#' || chars[1] != 'f' {
        return None;
    }
    let body = text.substring_char(2, n);
    let body_chars = to_chars(body);
    let len = body_chars.len();
    let m = find_char(&body_chars, 'm', 0);
    if m == 0 || m >= len || len - m <= 1 {
        return None;
    }
    let element = body.substring_char(0, m).to_owned();
    let order = body.substring_char(m + 1, len).to_owned();
    Some(Variable { name, value: FieldElement { order, element } })
}

fn read_line(line: &str) -> (res: Option<Variable>)
    ensures
        match res {
            Some(v) => parse_line(line@) == Some(v@),
            None => parse_line(line@) is None,
        },
{
    let chars = to_chars(line);
    let n = chars.len();
    if n < 4 || chars[0] != '(' || chars[1] != '(' || chars[n - 2] != ')' || chars[n - 1] != ')' {
        return None;
    }
    let inner = line.substring_char(2, n - 2);
    let inner_chars = to_chars(inner);
    let len = inner_chars.len();
    let space = find_char(&inner_chars, ' ', 0);
    if space == 0 || space >= len {
        return None;
    }
    let name = inner.substring_char(0, space).to_owned();
    read_value(name, inner.substring_char(space + 1, len))
}

/// Reads the solver's answer into a verdict and a model.
pub fn extract_model_response(stream: &str) -> (res: Result<ModelResult, AnalyzerError>)
    ensures
        match res {
            Ok(model) => parse_response(stream@) == Some((model.sat, bindings(model.result@))),
            Err(e) => e == AnalyzerError::SolverInvocationFailure && parse_response(stream@)
                is None,
        },
{
    let chars = to_chars(stream);
    let len = chars.len();
    let end = find_char(&chars, '\n', 0);
    let first = stream.substring_char(0, end).to_owned();
    let mut result: Vec<Variable> = Vec::new();
    assert(bindings(result@) =~= Seq::<Binding>::empty());
    let sat = if first == "sat".to_owned() {
        Satisfiability::Satisfiable
    } else if first == "unsat".to_owned() {
        return Ok(ModelResult { sat: Satisfiability::Unsatisfiable, result });
    } else if first == "unknown".to_owned() {
        return Ok(ModelResult { sat: Satisfiability::Unknown, result });
    } else {
        return Err(AnalyzerError::SolverInvocationFailure);
    };
    let mut from: usize = if end < len {
        end + 1
    } else {
        len
    };
    let ghost start = end + 1;
    let ghost total = parse_lines(stream@, start);
    assert(parse_lines(stream@, from as int) == total);
    assert(parse_response(stream@) == match total {
        None => None::<(Satisfiability, Seq<Binding>)>,
        Some(lines) => Some((Satisfiability::Satisfiable, lines)),
    });
    while from < len
        invariant
            from <= len,
            sat == Satisfiability::Satisfiable,
            parse_response(stream@) == match total {
                None => None::<(Satisfiability, Seq<Binding>)>,
                Some(lines) => Some((Satisfiability::Satisfiable, lines)),
            },
            len == chars@.len(),
            chars@ == stream@,
            match parse_lines(stream@, from as int) {
                Some(rest) => total == Some(bindings(result@) + rest),
                None => total is None,
            },
        decreases len - from,
    {
        let e = find_char(&chars, '\n', from);
        let line = stream.substring_char(from, e);
        let next: usize = if e < len {
            e + 1
        } else {
            len
        };
        proof {
            let after = if e < len {
                parse_lines(stream@, e + 1)
            } else {
                Some(Seq::empty())
            };
            assert(parse_lines(stream@, next as int) == after);
        }
        if e > from {
            match read_line(line) {
                None => {
                    assert(parse_lines(stream@, from as int) is None);
                    return Err(AnalyzerError::SolverInvocationFailure);
                },
                Some(variable) => {
                    proof {
                        assert(bindings(result@.push(variable)) =~= bindings(result@).push(
                            variable@,
                        ));
                        match parse_lines(stream@, next as int) {
                            Some(rest) => {
                                assert(bindings(result@) + (seq![variable@] + rest) =~= bindings(
                                    result@,
                                ).push(variable@) + rest);
                            },
                            None => {},
                        }
                    }
                    result.push(variable);
                },
            }
        }
        from = next;
    }
    proof {
        assert(bindings(result@) + Seq::<Binding>::empty() =~= bindings(result@));
    }
    Ok(ModelResult { sat, result })
}

/// The line by which the solver states that `name` has the value whose
/// numeral is `element` in the field whose order has the numeral `order`.
pub open spec fn model_line(name: Seq<char>, element: Seq<char>, order: Seq<char>) -> Seq<char> {
    "(("@ + name + " #f"@ + element + "m"@ + order + "))"@
}

/// A constant comes back unchanged: the line by which the solver states the
/// value `k` of a variable is read as that variable with the numeral of `k`.
pub proof fn lemma_value_round_trip(name: Seq<char>, k: nat, order: Seq<char>)
    requires
        name.len() > 0,
        forall|i: int| 0 <= i < name.len() ==> name[i] != ' ',
        order.len() > 0,
    ensures
        parse_line(model_line(name, decimal(k), order)) == Some(
            Binding { name, element: decimal(k), order },
        ),
{
    reveal_strlit("((");
    reveal_strlit(" #f");
    reveal_strlit("m");
    reveal_strlit("))");
    lemma_decimal_digits(k);
    let element = decimal(k);
    let line = model_line(name, element, order);
    let n = line.len() as int;
    let a = name.len() as int;
    let e = element.len() as int;
    let o = order.len() as int;
    assert(n == 2 + a + 3 + e + 1 + o + 2);
    let inner = line.subrange(2, n - 2);
    assert(inner =~= name + " #f"@ + element + "m"@ + order);
    assert(inner[a] == ' ');
    assert forall|j: int| 0 <= j < a implies inner[j] != ' ' by {
        assert(inner[j] == name[j]);
    }
    lemma_find_first(inner, ' ', 0, a);
    assert(inner.subrange(0, a) =~= name);
    let text = inner.subrange(a + 1, inner.len() as int);
    assert(text =~= "#f"@ + element + "m"@ + order) by {
        reveal_strlit("#f");
    }
    reveal_strlit("#f");
    assert(text[0] == '#' && text[1] == 'f');
    let body = text.subrange(2, text.len() as int);
    assert(body =~= element + "m"@ + order);
    assert(body[e] == 'm');
    assert forall|j: int| 0 <= j < e implies body[j] != 'm' by {
        assert(body[j] == element[j]);
        assert(is_digit(element[j]));
    }
    lemma_find_first(body, 'm', 0, e);
    assert(body.subrange(0, e) =~= element);
    assert(body.subrange(e + 1, body.len() as int) =~= order);
}

} // verus!
