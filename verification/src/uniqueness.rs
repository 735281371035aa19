//! The search for a second witness: whether some assignment of the instance
//! variables admits two different assignments of the other variables.
//!
//! The search is a state machine. It holds the script and says when the
//! solver is to be asked; the caller runs the solver on `query()` and hands
//! the answer to `advance`.

use vstd::prelude::*;
use crate::analyzer::Analyzer;
use crate::analyzer_io_type::{
    AnalyzerInput, AnalyzerOutputStatus, InstanceValue, VerificationMethod,
};
use crate::error::AnalyzerError;
use crate::smt::{
    assert_line, conjunction_text, contains_name, declared, disequality_text, disjunction_text,
    disequality, emitted, equality, equality_text, get_or, lemma_names_push, names, pop_line,
    push_line, query_suffix, write_query, NodeType, Operation, Printer, PrinterView,
};
use crate::smt_parser::{assignment, lookup, ModelResult, Satisfiability, Variable};
use crate::text::{signed_decimal, signed_decimal_string};

verus! {

/// Which answer of the solver the search waits for.
#[derive(Debug, Clone, Copy, PartialEq, Eq, Structural)]
pub enum SearchPhase {
    /// The answer on the constraints alone.
    Base,
    /// A model of the constraints: the candidate of this iteration.
    Candidate,
    /// A second model with the candidate's public input.
    Alternative,
    /// None: the search has ended.
    Done,
}

/// What the caller does next.
#[derive(Debug, Clone, Copy, PartialEq, Eq, Structural)]
pub enum SearchAction {
    /// Run the solver on the query and hand its answer over.
    Query,
    /// Nothing: the search has ended with this status.
    Done(AnalyzerOutputStatus),
}

/// The state of the search.
pub struct UniquenessSearch {
    /// The script, with what the search has asserted so far.
    pub printer: Printer,
    /// The variables whose values are asked for.
    pub variables: Vec<String>,
    /// The names of the instance variables.
    pub instances: Vec<String>,
    pub method: VerificationMethod,
    pub max_iterations: u128,
    /// The number of the running iteration, from 1.
    pub iteration: u128,
    pub phase: SearchPhase,
    /// The model under examination in this iteration.
    pub candidate: Vec<Variable>,
    /// The outcome, once the search has ended.
    pub status: AnalyzerOutputStatus,
    /// The number of scopes that were open when the search began.
    pub base_depth: usize,
    /// The models of the earlier iterations, whose public inputs the script
    /// now excludes.
    pub blocked: Ghost<Seq<Seq<Variable>>>,
}

/// `part` stands somewhere in `text`.
pub open spec fn occurs_in(text: Seq<char>, part: Seq<char>) -> bool {
    exists|i: int|
        0 <= i && i + part.len() <= text.len() && #[trigger] text.subrange(i, i + part.len())
            == part
}

/// What stands in a text stands in every extension of it.
pub proof fn lemma_occurs_after_append(text: Seq<char>, more: Seq<char>, part: Seq<char>)
    requires
        occurs_in(text, part),
    ensures
        occurs_in(text + more, part),
{
    let i = choose|i: int|
        0 <= i && i + part.len() <= text.len() && #[trigger] text.subrange(i, i + part.len())
            == part;
    assert((text + more).subrange(i, i + part.len()) =~= text.subrange(i, i + part.len()));
}

/// The exclusions that stand in a script stand in every extension of it.
pub proof fn lemma_exclusions_kept(
    blocked: Seq<Seq<Variable>>,
    instances: Seq<Seq<char>>,
    text: Seq<char>,
    more: Seq<char>,
)
    requires
        forall|k: int|
            0 <= k < blocked.len() ==> occurs_in(
                text,
                assert_line(blocking_formula(#[trigger] blocked[k], instances)),
            ),
    ensures
        forall|k: int|
            0 <= k < blocked.len() ==> occurs_in(
                text + more,
                assert_line(blocking_formula(#[trigger] blocked[k], instances)),
            ),
{
    assert forall|k: int| 0 <= k < blocked.len() implies occurs_in(
        text + more,
        assert_line(blocking_formula(#[trigger] blocked[k], instances)),
    ) by {
        lemma_occurs_after_append(
            text,
            more,
            assert_line(blocking_formula(blocked[k], instances)),
        );
    }
}

/// What a text ends with stands in it.
pub proof fn lemma_occurs_at_end(text: Seq<char>, part: Seq<char>)
    ensures
        occurs_in(text + part, part),
{
    let i = text.len() as int;
    assert((text + part).subrange(i, i + part.len()) =~= part);
}

/// The printer after each instance variable is declared and asserted to
/// equal its given value, in order.
pub open spec fn pinned(p: PrinterView, instances: Seq<InstanceValue>) -> PrinterView
    decreases instances.len(),
{
    if instances.len() == 0 {
        p
    } else {
        emitted(
            declared(pinned(p, instances.drop_last()), instances.last().name@),
            assert_line(
                equality_text(
                    instances.last().name@,
                    signed_decimal(instances.last().value as int),
                    NodeType::Instance,
                ),
            ),
        )
    }
}

/// The names of the instance variables.
pub open spec fn instance_names(instances: Seq<InstanceValue>) -> Seq<Seq<char>> {
    Seq::new(instances.len(), |i: int| instances[i].name@)
}

/// Whether the second model is to agree with the candidate on `name`: it is
/// an instance variable that no given value pins already.
pub open spec fn held_equal(
    name: Seq<char>,
    instances: Seq<Seq<char>>,
    method: VerificationMethod,
) -> bool {
    instances.contains(name) && method != VerificationMethod::Specific
}

/// For each variable that is held equal, in order, the formula that it has
/// its value under `model`.
pub open spec fn same_parts(
    variables: Seq<Seq<char>>,
    model: Map<Seq<char>, Seq<char>>,
    instances: Seq<Seq<char>>,
    method: VerificationMethod,
) -> Seq<Seq<char>>
    decreases variables.len(),
{
    if variables.len() == 0 {
        Seq::empty()
    } else if held_equal(variables.last(), instances, method) {
        same_parts(variables.drop_last(), model, instances, method).push(
            equality_text(variables.last(), model[variables.last()], NodeType::Instance),
        )
    } else {
        same_parts(variables.drop_last(), model, instances, method)
    }
}

/// For each variable that is not held equal, in order, the formula that it
/// differs from its value under `model`.
pub open spec fn different_parts(
    variables: Seq<Seq<char>>,
    model: Map<Seq<char>, Seq<char>>,
    instances: Seq<Seq<char>>,
    method: VerificationMethod,
) -> Seq<Seq<char>>
    decreases variables.len(),
{
    if variables.len() == 0 {
        Seq::empty()
    } else if !held_equal(variables.last(), instances, method) {
        different_parts(variables.drop_last(), model, instances, method).push(
            disequality_text(variables.last(), model[variables.last()], NodeType::Instance),
        )
    } else {
        different_parts(variables.drop_last(), model, instances, method)
    }
}

/// The formula of a second witness: every variable held equal has its value
/// under `model`, and some other variable differs from its value.
pub open spec fn second_witness_formula(
    variables: Seq<Seq<char>>,
    model: Map<Seq<char>, Seq<char>>,
    instances: Seq<Seq<char>>,
    method: VerificationMethod,
) -> Seq<char> {
    conjunction_text(
        same_parts(variables, model, instances, method).push(
            disjunction_text(different_parts(variables, model, instances, method)),
        ),
    )
}

/// `model` assigns a value to each of `variables`.
pub open spec fn covers(model: Map<Seq<char>, Seq<char>>, variables: Seq<Seq<char>>) -> bool {
    forall|i: int| 0 <= i < variables.len() ==> model.dom().contains(#[trigger] variables[i])
}

/// For each entry of `candidate` that is an instance variable, in order, the
/// formula that the variable differs from the entry's value.
pub open spec fn blocking_parts(candidate: Seq<Variable>, instances: Seq<Seq<char>>) -> Seq<
    Seq<char>,
>
    decreases candidate.len(),
{
    if candidate.len() == 0 {
        Seq::empty()
    } else if instances.contains(candidate.last().name@) {
        blocking_parts(candidate.drop_last(), instances).push(
            disequality_text(
                candidate.last().name@,
                candidate.last().value.element@,
                NodeType::Instance,
            ),
        )
    } else {
        blocking_parts(candidate.drop_last(), instances)
    }
}

/// The formula that excludes the public input of `candidate`: some instance
/// variable differs from its value there.
pub open spec fn blocking_formula(candidate: Seq<Variable>, instances: Seq<Seq<char>>) -> Seq<
    char,
> {
    disjunction_text(blocking_parts(candidate, instances))
}

impl UniquenessSearch {
    /// The scopes open, the iteration count and the excluded inputs fit the
    /// phase: the search has one scope of its own open while it waits for a
    /// second model, and after it has found one, and none otherwise; it has
    /// excluded one public input for each iteration made, and the script
    /// holds each exclusion.
    pub open spec fn well_formed(&self) -> bool {
        &&& self.base_depth < usize::MAX
        &&& forall|k: int|
            0 <= k < self.blocked@.len() ==> occurs_in(
                self.printer@.text,
                assert_line(blocking_formula(#[trigger] self.blocked@[k], names(self.instances@))),
            )
        &&& match self.phase {
            SearchPhase::Base => self.printer.depth == self.base_depth && self.iteration == 0
                && self.blocked@.len() == 0,
            SearchPhase::Candidate => self.printer.depth == self.base_depth && 1
                <= self.iteration <= self.max_iterations && self.blocked@.len() == self.iteration
                - 1,
            SearchPhase::Alternative => self.printer.depth == self.base_depth + 1 && 1
                <= self.iteration <= self.max_iterations && self.blocked@.len() == self.iteration
                - 1,
            SearchPhase::Done => self.printer.depth == if self.status
                == AnalyzerOutputStatus::Underconstrained {
                self.base_depth + 1
            } else {
                self.base_depth as int
            },
        }
    }

    /// The text to run the solver on: the script, a satisfiability check, and
    /// a request for the value of each variable.
    pub fn query(&self) -> (res: String)
        ensures
            res@ == self.printer@.text + query_suffix(names(self.variables@)),
    {
        write_query(&self.printer.out, &self.variables)
    }

    /// What the caller does next.
    pub fn action(&self) -> (res: SearchAction)
        ensures
            res == if self.phase == SearchPhase::Done {
                SearchAction::Done(self.status)
            } else {
                SearchAction::Query
            },
    {
        match self.phase {
            SearchPhase::Done => SearchAction::Done(self.status),
            _ => SearchAction::Query,
        }
    }
}

fn clone_names(v: &Vec<String>) -> (res: Vec<String>)
    ensures
        names(res@) == names(v@),
{
    let mut res: Vec<String> = Vec::new();
    let mut i: usize = 0;
    while i < v.len()
        invariant
            i <= v.len(),
            res@.len() == i,
            forall|j: int| 0 <= j < i ==> (#[trigger] res@[j])@ == v@[j]@,
        decreases v.len() - i,
    {
        res.push(v[i].clone());
        i += 1;
    }
    assert(names(res@) =~= names(v@));
    res
}

fn collect_instance_names(instances: &Vec<InstanceValue>) -> (res: Vec<String>)
    ensures
        names(res@) == instance_names(instances@),
{
    let mut res: Vec<String> = Vec::new();
    let mut i: usize = 0;
    while i < instances.len()
        invariant
            i <= instances.len(),
            res@.len() == i,
            forall|j: int| 0 <= j < i ==> (#[trigger] res@[j])@ == instances@[j].name@,
        decreases instances.len() - i,
    {
        res.push(instances[i].name.clone());
        i += 1;
    }
    assert(names(res@) =~= instance_names(instances@));
    res
}

proof fn lemma_pinned_depth(p: PrinterView, instances: Seq<InstanceValue>)
    ensures
        pinned(p, instances).depth == p.depth,
    decreases instances.len(),
{
    if instances.len() > 0 {
        lemma_pinned_depth(p, instances.drop_last());
    }
}

fn pin_instances(printer: &mut Printer, instances: &Vec<InstanceValue>)
    ensures
        final(printer)@ == pinned(old(printer)@, instances@),
        final(printer).depth == old(printer).depth,
{
    proof {
        lemma_pinned_depth(printer@, instances@);
    }
    let mut i: usize = 0;
    assert(instances@.take(0) =~= Seq::<InstanceValue>::empty());
    while i < instances.len()
        invariant
            i <= instances.len(),
            printer@ == pinned(old(printer)@, instances@.take(i as int)),
        decreases instances.len() - i,
    {
        proof {
            let next = instances@.take(i + 1);
            assert(next.drop_last() =~= instances@.take(i as int));
            assert(next.last() == instances@[i as int]);
        }
        printer.write_var(instances[i].name.clone());
        let value = signed_decimal_string(instances[i].value);
        printer.write_assert(&instances[i].name, &value, NodeType::Instance, Operation::Equal);
        i += 1;
    }
    assert(instances@.take(instances.len() as int) =~= instances@);
}

impl Analyzer {
    /// Sets the search up on an encoded script. The variables declared so
    /// far are those whose values will be asked for. With a specific input
    /// each instance variable is pinned to its given value and one iteration
    /// is made; otherwise as many as the input allows. The search then waits
    /// for the solver's answer on the script as it stands. The instance
    /// variables are taken as the input lists them; on a well-formed input
    /// none is named twice.
    pub fn uniqueness_assertion(
        instance_cols_string: &Vec<InstanceValue>,
        analyzer_input: &AnalyzerInput,
        printer: Printer,
    ) -> (res: UniquenessSearch)
        requires
            printer.depth < usize::MAX,
        ensures
            res.well_formed(),
            res.phase == SearchPhase::Base,
            res.base_depth == printer.depth,
            names(res.variables@) == printer@.vars,
            names(res.instances@) == instance_names(instance_cols_string@),
            res.method == analyzer_input.verification_method,
            res.max_iterations == match analyzer_input.verification_method {
                VerificationMethod::Specific => 1u128,
                VerificationMethod::Random => analyzer_input.verification_input.iterations,
            },
            res.printer@ == match analyzer_input.verification_method {
                VerificationMethod::Specific => pinned(printer@, instance_cols_string@),
                VerificationMethod::Random => printer@,
            },
    {
        let mut printer = printer;
        let base_depth = printer.depth;
        let variables = clone_names(&printer.vars);
        let instances = collect_instance_names(instance_cols_string);
        let mut max_iterations: u128 = 1;
        match analyzer_input.verification_method {
            VerificationMethod::Specific => {
                pin_instances(&mut printer, instance_cols_string);
            },
            VerificationMethod::Random => {
                max_iterations = analyzer_input.verification_input.iterations;
            },
        }
        UniquenessSearch {
            printer,
            variables,
            instances,
            method: analyzer_input.verification_method,
            max_iterations,
            iteration: 0,
            phase: SearchPhase::Base,
            candidate: Vec::new(),
            status: AnalyzerOutputStatus::Invalid,
            base_depth,
            blocked: Ghost(Seq::empty()),
        }
    }
}

/// The search `after` is `before` ended with `status`: the script, the
/// iteration count, the candidate and the excluded inputs are untouched.
pub open spec fn ended(
    before: UniquenessSearch,
    after: UniquenessSearch,
    status: AnalyzerOutputStatus,
) -> bool {
    &&& after.phase == SearchPhase::Done
    &&& after.status == status
    &&& after.printer@ == before.printer@
    &&& after.iteration == before.iteration
    &&& after.candidate == before.candidate
    &&& after.blocked@ == before.blocked@
}

/// The script after a scope is opened in `p` and the second witness of
/// `model` is asked for in it.
pub open spec fn second_witness_asked(
    p: PrinterView,
    variables: Seq<Seq<char>>,
    model: Map<Seq<char>, Seq<char>>,
    instances: Seq<Seq<char>>,
    method: VerificationMethod,
) -> PrinterView {
    PrinterView {
        depth: p.depth + 1,
        ..emitted(
            emitted(p, push_line()),
            assert_line(second_witness_formula(variables, model, instances, method)),
        )
    }
}

/// The script after the open scope of `p` is closed and the public input of
/// `candidate` is excluded for good.
pub open spec fn input_blocked(
    p: PrinterView,
    candidate: Seq<Variable>,
    instances: Seq<Seq<char>>,
) -> PrinterView {
    PrinterView {
        depth: (p.depth - 1) as nat,
        ..emitted(emitted(p, pop_line()), assert_line(blocking_formula(candidate, instances)))
    }
}

/// One step of the search as a relation: from the search `before` and the
/// solver's answer `model` to the search `after` and the result `res`.
pub open spec fn stepped(
    before: UniquenessSearch,
    model: ModelResult,
    after: UniquenessSearch,
    res: Result<SearchAction, AnalyzerError>,
) -> bool {
    &&& after.variables == before.variables
    &&& after.instances == before.instances
    &&& after.method == before.method
    &&& after.max_iterations == before.max_iterations
    &&& after.base_depth == before.base_depth
    &&& match before.phase {
        SearchPhase::Done => after == before && res == Ok::<
            SearchAction,
            AnalyzerError,
        >(SearchAction::Done(before.status)),
        SearchPhase::Base => if model.sat == Satisfiability::Unsatisfiable {
            ended(before, after, AnalyzerOutputStatus::Overconstrained) && res
                == Ok::<SearchAction, AnalyzerError>(
                SearchAction::Done(AnalyzerOutputStatus::Overconstrained),
            )
        } else if before.max_iterations == 0 {
            ended(before, after, AnalyzerOutputStatus::NotUnderconstrainedLocal)
                && res == Ok::<SearchAction, AnalyzerError>(
                SearchAction::Done(AnalyzerOutputStatus::NotUnderconstrainedLocal),
            )
        } else {
            after.phase == SearchPhase::Candidate && after.iteration == 1
                && after.printer@ == before.printer@ && after.blocked@
                == before.blocked@ && res == Ok::<SearchAction, AnalyzerError>(
                SearchAction::Query,
            )
        },
        SearchPhase::Candidate => if model.sat == Satisfiability::Unsatisfiable {
            ended(before, after, AnalyzerOutputStatus::NotUnderconstrained)
                && res == Ok::<SearchAction, AnalyzerError>(
                SearchAction::Done(AnalyzerOutputStatus::NotUnderconstrained),
            )
        } else if !covers(assignment(model.result@), names(before.variables@)) {
            after == before && res == Err::<SearchAction, AnalyzerError>(
                AnalyzerError::ModelLookupFailure,
            )
        } else {
            after.phase == SearchPhase::Alternative && after.iteration == before.iteration
                && after.candidate == model.result && after.printer@ == second_witness_asked(
                before.printer@,
                names(before.variables@),
                assignment(model.result@),
                names(before.instances@),
                before.method,
            ) && after.blocked@ == before.blocked@ && res == Ok::<
                SearchAction,
                AnalyzerError,
            >(SearchAction::Query)
        },
        SearchPhase::Alternative => if model.sat == Satisfiability::Satisfiable {
            ended(before, after, AnalyzerOutputStatus::Underconstrained) && res
                == Ok::<SearchAction, AnalyzerError>(
                SearchAction::Done(AnalyzerOutputStatus::Underconstrained),
            )
        } else {
            after.printer@ == input_blocked(
                before.printer@,
                before.candidate@,
                names(before.instances@),
            ) && after.blocked@ == before.blocked@.push(before.candidate@)
                && if before.iteration == before.max_iterations {
                after.phase == SearchPhase::Done && after.iteration == before.iteration
                    && after.status == AnalyzerOutputStatus::NotUnderconstrainedLocal && res
                    == Ok::<
                    SearchAction,
                    AnalyzerError,
                >(SearchAction::Done(AnalyzerOutputStatus::NotUnderconstrainedLocal))
            } else {
                after.phase == SearchPhase::Candidate && after.iteration
                    == before.iteration + 1 && res == Ok::<SearchAction, AnalyzerError>(
                    SearchAction::Query,
                )
            }
        },
    }
}

fn build_witness_parts(
    variables: &Vec<String>,
    model: &Vec<Variable>,
    instances: &Vec<String>,
    method: VerificationMethod,
) -> (res: Option<(Vec<String>, Vec<String>)>)
    ensures
        match res {
            Some((same, different)) => covers(assignment(model@), names(variables@)) && names(
                same@,
            ) == same_parts(names(variables@), assignment(model@), names(instances@), method)
                && names(different@) == different_parts(
                names(variables@),
                assignment(model@),
                names(instances@),
                method,
            ),
            None => !covers(assignment(model@), names(variables@)),
        },
{
    let mut same: Vec<String> = Vec::new();
    let mut different: Vec<String> = Vec::new();
    let mut i: usize = 0;
    let ghost vars = names(variables@);
    let ghost asg = assignment(model@);
    let ghost inst = names(instances@);
    assert(vars.take(0) =~= Seq::<Seq<char>>::empty());
    assert(names(same@) =~= Seq::<Seq<char>>::empty());
    assert(names(different@) =~= Seq::<Seq<char>>::empty());
    while i < variables.len()
        invariant
            i <= variables.len(),
            vars == names(variables@),
            asg == assignment(model@),
            inst == names(instances@),
            forall|j: int| 0 <= j < i ==> asg.dom().contains(#[trigger] vars[j]),
            names(same@) == same_parts(vars.take(i as int), asg, inst, method),
            names(different@) == different_parts(vars.take(i as int), asg, inst, method),
        decreases variables.len() - i,
    {
        proof {
            let next = vars.take(i + 1);
            assert(next.drop_last() =~= vars.take(i as int));
            assert(next.last() == variables@[i as int]@);
        }
        let name = &variables[i];
        let value = match lookup(model, name) {
            Some(value) => value,
            None => {
                assert(!asg.dom().contains(vars[i as int]));
                return None;
            },
        };
        let is_instance = contains_name(instances, name);
        let fixed = is_instance && match method {
            VerificationMethod::Specific => false,
            VerificationMethod::Random => true,
        };
        if fixed {
            let formula = equality(name, value, NodeType::Instance);
            proof {
                lemma_names_push(same@, formula);
            }
            same.push(formula);
        } else {
            let formula = disequality(name, value, NodeType::Instance);
            proof {
                lemma_names_push(different@, formula);
            }
            different.push(formula);
        }
        i += 1;
    }
    assert(vars.take(variables.len() as int) =~= vars);
    Some((same, different))
}

fn build_blocking_parts(candidate: &Vec<Variable>, instances: &Vec<String>) -> (res: Vec<String>)
    ensures
        names(res@) == blocking_parts(candidate@, names(instances@)),
{
    let mut parts: Vec<String> = Vec::new();
    let mut i: usize = 0;
    assert(candidate@.take(0) =~= Seq::<Variable>::empty());
    assert(names(parts@) =~= Seq::<Seq<char>>::empty());
    while i < candidate.len()
        invariant
            i <= candidate.len(),
            names(parts@) == blocking_parts(candidate@.take(i as int), names(instances@)),
        decreases candidate.len() - i,
    {
        proof {
            let next = candidate@.take(i + 1);
            assert(next.drop_last() =~= candidate@.take(i as int));
            assert(next.last() == candidate@[i as int]);
        }
        if contains_name(instances, &candidate[i].name) {
            let formula = disequality(
                &candidate[i].name,
                &candidate[i].value.element,
                NodeType::Instance,
            );
            proof {
                lemma_names_push(parts@, formula);
            }
            parts.push(formula);
        }
        i += 1;
    }
    assert(candidate@.take(candidate.len() as int) =~= candidate@);
    parts
}

impl UniquenessSearch {
    /// Takes the solver's answer to the last query and moves the search on.
    ///
    /// On the constraints alone: unsatisfiable ends the search as
    /// overconstrained. On a candidate: unsatisfiable ends it as not
    /// underconstrained; otherwise a scope is opened and a second model is
    /// asked for, equal to the candidate on the instance variables that no
    /// given value pins and different on some other variable. On the second
    /// model: satisfiable ends the search as underconstrained, the scope left
    /// open; otherwise the scope is closed and the candidate's public input is
    /// excluded from all later iterations. When the iterations are used up
    /// the search ends as not underconstrained as far as it looked.
    pub fn advance(&mut self, model: ModelResult) -> (res: Result<SearchAction, AnalyzerError>)
        requires
            old(self).well_formed(),
        ensures
            final(self).well_formed(),
            old(self).printer@.text.is_prefix_of(final(self).printer@.text),
            stepped(*old(self), model, *final(self), res),
    {
        match self.phase {
            SearchPhase::Done => Ok(SearchAction::Done(self.status)),
            SearchPhase::Base => {
                match model.sat {
                    Satisfiability::Unsatisfiable => {
                        Ok(self.finish(AnalyzerOutputStatus::Overconstrained))
                    },
                    _ => {
                        if self.max_iterations == 0 {
                            Ok(self.finish(AnalyzerOutputStatus::NotUnderconstrainedLocal))
                        } else {
                            self.phase = SearchPhase::Candidate;
                            self.iteration = 1;
                            Ok(SearchAction::Query)
                        }
                    },
                }
            },
            SearchPhase::Candidate => {
                match model.sat {
                    Satisfiability::Unsatisfiable => {
                        Ok(self.finish(AnalyzerOutputStatus::NotUnderconstrained))
                    },
                    _ => {
                        let built = build_witness_parts(
                            &self.variables,
                            &model.result,
                            &self.instances,
                            self.method,
                        );
                        match built {
                            None => Err(AnalyzerError::ModelLookupFailure),
                            Some((same, different)) => {
                                let mut parts = same;
                                let some_differs = get_or(&different);
                                proof {
                                    lemma_names_push(parts@, some_differs);
                                }
                                parts.push(some_differs);
                                self.printer.write_push();
                                self.printer.write_assert_bool(&parts, Operation::And);
                                proof {
                                    let added = push_line() + assert_line(
                                        conjunction_text(names(parts@)),
                                    );
                                    assert(self.printer@.text =~= old(self).printer@.text + added);
                                    assert(old(self).printer@.text.is_prefix_of(
                                        old(self).printer@.text + added,
                                    ));
                                    lemma_exclusions_kept(
                                        self.blocked@,
                                        names(self.instances@),
                                        old(self).printer@.text,
                                        added,
                                    );
                                }
                                self.candidate = model.result;
                                self.phase = SearchPhase::Alternative;
                                Ok(SearchAction::Query)
                            },
                        }
                    },
                }
            },
            SearchPhase::Alternative => {
                match model.sat {
                    Satisfiability::Satisfiable => {
                        Ok(self.finish(AnalyzerOutputStatus::Underconstrained))
                    },
                    _ => {
                        self.printer.write_pop();
                        let parts = build_blocking_parts(&self.candidate, &self.instances);
                        self.printer.write_assert_bool(&parts, Operation::Or);
                        proof {
                            let line = assert_line(
                                blocking_formula(self.candidate@, names(self.instances@)),
                            );
                            let before = old(self).printer@.text + pop_line();
                            assert(self.printer@.text =~= before + line);
                            lemma_occurs_at_end(before, line);
                            lemma_exclusions_kept(
                                self.blocked@,
                                names(self.instances@),
                                old(self).printer@.text,
                                pop_line() + line,
                            );
                            assert(self.printer@.text =~= old(self).printer@.text + (pop_line()
                                + line));
                            assert(old(self).printer@.text.is_prefix_of(
                                old(self).printer@.text + (pop_line() + line),
                            ));
                            self.blocked@ = self.blocked@.push(self.candidate@);
                        }
                        if self.iteration == self.max_iterations {
                            self.phase = SearchPhase::Done;
                            self.status = AnalyzerOutputStatus::NotUnderconstrainedLocal;
                            Ok(SearchAction::Done(AnalyzerOutputStatus::NotUnderconstrainedLocal))
                        } else {
                            self.iteration = self.iteration + 1;
                            self.phase = SearchPhase::Candidate;
                            Ok(SearchAction::Query)
                        }
                    },
                }
            },
        }
    }

    fn finish(&mut self, status: AnalyzerOutputStatus) -> (res: SearchAction)
        ensures
            ended(*old(self), *final(self), status),
            final(self).variables == old(self).variables,
            final(self).instances == old(self).instances,
            final(self).method == old(self).method,
            final(self).max_iterations == old(self).max_iterations,
            final(self).base_depth == old(self).base_depth,
            res == SearchAction::Done(status),
    {
        self.phase = SearchPhase::Done;
        self.status = status;
        SearchAction::Done(status)
    }
}

} // verus!
