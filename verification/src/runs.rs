//! Whole runs of the search against a solver that answers faithfully: how
//! many queries a run makes, that no public input is examined twice, and that
//! a circuit whose public input determines the witness is never found
//! underconstrained.
//!
//! What the script means is left open here: `base` is any set of assignments,
//! taken as those that satisfy the script on which the search starts.

use vstd::prelude::*;
use crate::analyzer_io_type::{AnalyzerOutputStatus, VerificationMethod};
use crate::error::AnalyzerError;
use crate::semantics::{
    atom_holds, is_second_witness, lemma_second_witness_differs, public_input,
    same_public_input, some_atom_fails,
};
use crate::smt::names;
use crate::smt_parser::{
    assignment, lemma_assignment_of_last, ModelResult, Satisfiability, Variable,
};
use crate::uniqueness::{covers, held_equal, stepped, SearchAction, SearchPhase, UniquenessSearch};

verus! {

/// What `advance` returns when it leaves the search in the state `after`.
pub open spec fn outcome(after: UniquenessSearch) -> Result<SearchAction, AnalyzerError> {
    if after.phase == SearchPhase::Done {
        Ok(SearchAction::Done(after.status))
    } else {
        Ok(SearchAction::Query)
    }
}

/// A run of the search: it starts waiting for the answer on the constraints
/// alone, each answer takes it one step on, and no answer is given once it
/// has ended.
pub open spec fn is_run(states: Seq<UniquenessSearch>, answers: Seq<ModelResult>) -> bool {
    &&& states.len() == answers.len() + 1
    &&& states[0].phase == SearchPhase::Base
    &&& forall|i: int| 0 <= i < states.len() ==> (#[trigger] states[i]).well_formed()
    &&& forall|i: int|
        0 <= i < answers.len() ==> states[i].phase != SearchPhase::Done && stepped(
            states[i],
            #[trigger] answers[i],
            states[i + 1],
            outcome(states[i + 1]),
        )
}

/// The number of answers that a search in this state has taken: one on the
/// constraints alone, then two for each iteration, a candidate and a second
/// model.
pub open spec fn answers_taken(s: UniquenessSearch) -> int {
    match s.phase {
        SearchPhase::Base => 0,
        SearchPhase::Candidate => 2 * s.iteration - 1,
        SearchPhase::Alternative => 2 * s.iteration,
        SearchPhase::Done => match s.status {
            AnalyzerOutputStatus::Overconstrained => 1,
            AnalyzerOutputStatus::NotUnderconstrained => 2 * s.iteration,
            _ => 2 * s.iteration + 1,
        },
    }
}

/// The only outcomes of a search.
pub open spec fn is_search_status(status: AnalyzerOutputStatus) -> bool {
    status == AnalyzerOutputStatus::Overconstrained || status
        == AnalyzerOutputStatus::NotUnderconstrained || status
        == AnalyzerOutputStatus::Underconstrained || status
        == AnalyzerOutputStatus::NotUnderconstrainedLocal
}

/// The queries of a run are counted by its state: after `n` answers the
/// search has taken `n` answers. So a run that ends as not underconstrained
/// in iteration `i` has made `2 i` queries, one that ends as underconstrained
/// or with iteration `i` as its last has made `2 i + 1`, and the iteration
/// count never passes the bound.
pub proof fn lemma_queries_counted(
    states: Seq<UniquenessSearch>,
    answers: Seq<ModelResult>,
    n: int,
)
    requires
        is_run(states, answers),
        0 <= n < states.len(),
    ensures
        answers_taken(states[n]) == n,
        states[n].iteration <= states[n].max_iterations,
        states[n].max_iterations == states[0].max_iterations,
        states[n].phase == SearchPhase::Done ==> is_search_status(states[n].status),
    decreases n,
{
    assert(states[0].well_formed());
    if n > 0 {
        lemma_queries_counted(states, answers, n - 1);
        assert(states[n - 1].well_formed());
        assert(states[n].well_formed());
        assert(stepped(states[n - 1], answers[n - 1], states[n], outcome(states[n])));
    }
}

/// `a` is one of the assignments in `base`.
pub open spec fn satisfies(base: spec_fn(Map<Seq<char>, Seq<char>>) -> bool, a: Map<Seq<char>, Seq<char>>) -> bool {
    base(a)
}

/// `a` satisfies every exclusion: it has the public input of none of
/// `blocked`.
pub open spec fn avoids_all(
    blocked: Seq<Seq<Variable>>,
    instances: Seq<Seq<char>>,
    a: Map<Seq<char>, Seq<char>>,
) -> bool {
    forall|k: int|
        0 <= k < blocked.len() ==> some_atom_fails(public_input(#[trigger] blocked[k], instances), a)
}

/// `a` satisfies what the script of `s` asserts for good: the script on
/// which the search started and every exclusion since.
pub open spec fn admitted(
    s: UniquenessSearch,
    base: spec_fn(Map<Seq<char>, Seq<char>>) -> bool,
    a: Map<Seq<char>, Seq<char>>,
) -> bool {
    satisfies(base, a) && avoids_all(s.blocked@, names(s.instances@), a)
}

/// `a` satisfies what the solver is asked in the state `s`.
pub open spec fn asked(
    s: UniquenessSearch,
    base: spec_fn(Map<Seq<char>, Seq<char>>) -> bool,
    a: Map<Seq<char>, Seq<char>>,
) -> bool {
    admitted(s, base, a) && (s.phase == SearchPhase::Alternative ==> is_second_witness(
        names(s.variables@),
        assignment(s.candidate@),
        names(s.instances@),
        s.method,
        a,
    ))
}

/// The names of the variables of a model, in order.
pub open spec fn variable_names(result: Seq<Variable>) -> Seq<Seq<char>> {
    Seq::new(result.len(), |i: int| result[i].name@)
}

/// The answer to the query of the state `s` is faithful: a model satisfies
/// what was asked and lists no variable twice, and `unsat` is said only
/// where nothing satisfies what was asked. An answer that leaves the question
/// open is none.
pub open spec fn faithful(
    s: UniquenessSearch,
    answer: ModelResult,
    base: spec_fn(Map<Seq<char>, Seq<char>>) -> bool,
) -> bool {
    match answer.sat {
        Satisfiability::Satisfiable => asked(s, base, assignment(answer.result@))
            && variable_names(answer.result@).no_duplicates(),
        Satisfiability::Unsatisfiable => forall|a: Map<Seq<char>, Seq<char>>|
            !#[trigger] asked(s, base, a),
        Satisfiability::Unknown => false,
    }
}

/// Every answer of the run is faithful.
pub open spec fn all_faithful(
    states: Seq<UniquenessSearch>,
    answers: Seq<ModelResult>,
    base: spec_fn(Map<Seq<char>, Seq<char>>) -> bool,
) -> bool {
    forall|i: int| 0 <= i < answers.len() ==> faithful(states[i], #[trigger] answers[i], base)
}

/// The candidates examined so far have public inputs apart from each other,
/// and the candidate under examination has a public input apart from all of
/// them.
pub open spec fn inputs_apart(s: UniquenessSearch) -> bool {
    &&& forall|i: int, j: int|
        0 <= i < j < s.blocked@.len() ==> !same_public_input(
            #[trigger] s.blocked@[i],
            names(s.instances@),
            assignment(#[trigger] s.blocked@[j]),
        )
    &&& s.phase == SearchPhase::Alternative ==> forall|i: int|
        0 <= i < s.blocked@.len() ==> !same_public_input(
            #[trigger] s.blocked@[i],
            names(s.instances@),
            assignment(s.candidate@),
        )
}

/// No public input is examined twice: in a run against a solver that answers
/// faithfully, any two candidates that the search records differ on some
/// instance variable.
pub proof fn lemma_no_public_input_examined_twice(
    states: Seq<UniquenessSearch>,
    answers: Seq<ModelResult>,
    base: spec_fn(Map<Seq<char>, Seq<char>>) -> bool,
    n: int,
)
    requires
        is_run(states, answers),
        all_faithful(states, answers, base),
        0 <= n < states.len(),
    ensures
        inputs_apart(states[n]),
        states[n].instances == states[0].instances,
    decreases n,
{
    assert(states[0].well_formed());
    if n > 0 {
        lemma_no_public_input_examined_twice(states, answers, base, n - 1);
        let before = states[n - 1];
        let after = states[n];
        let answer = answers[n - 1];
        assert(stepped(before, answer, after, outcome(after)));
        assert(faithful(before, answer, base));
        let instances = names(before.instances@);
        match before.phase {
            SearchPhase::Candidate => {
                if after.phase == SearchPhase::Alternative {
                    assert(asked(before, base, assignment(answer.result@)));
                    assert forall|i: int| 0 <= i < after.blocked@.len() implies !same_public_input(
                        #[trigger] after.blocked@[i],
                        names(after.instances@),
                        assignment(after.candidate@),
                    ) by {
                        assert(some_atom_fails(
                            public_input(before.blocked@[i], instances),
                            assignment(answer.result@),
                        ));
                    }
                }
            },
            SearchPhase::Alternative => {
                if answer.sat != Satisfiability::Satisfiable {
                    assert forall|i: int, j: int|
                        0 <= i < j < after.blocked@.len() implies !same_public_input(
                        #[trigger] after.blocked@[i],
                        names(after.instances@),
                        assignment(#[trigger] after.blocked@[j]),
                    ) by {
                        if j < before.blocked@.len() {
                            assert(after.blocked@[i] == before.blocked@[i]);
                            assert(after.blocked@[j] == before.blocked@[j]);
                        } else {
                            assert(after.blocked@[i] == before.blocked@[i]);
                            assert(after.blocked@[j] == before.candidate@);
                        }
                    }
                }
            },
            _ => {},
        }
    }
}

/// The variables that are held equal determine all variables: two
/// assignments in `base` that agree on each of them agree on every variable.
/// With random inputs the instance variables are held equal, so this says
/// that the public input determines the witness; with a specific input none
/// is, so it says that the given input has one witness.
pub open spec fn witness_determined(
    base: spec_fn(Map<Seq<char>, Seq<char>>) -> bool,
    variables: Seq<Seq<char>>,
    instances: Seq<Seq<char>>,
    method: VerificationMethod,
) -> bool {
    forall|a: Map<Seq<char>, Seq<char>>, b: Map<Seq<char>, Seq<char>>|
        #[trigger] satisfies(base, a) && #[trigger] satisfies(base, b) && (forall|i: int|
            0 <= i < variables.len() && held_equal(#[trigger] variables[i], instances, method)
                ==> agree_on(a, b, variables[i])) ==> forall|i: int|
            0 <= i < variables.len() ==> agree_on(a, b, #[trigger] variables[i])
}

/// Both assignments give `name` a value, and the same one.
pub open spec fn agree_on(
    a: Map<Seq<char>, Seq<char>>,
    b: Map<Seq<char>, Seq<char>>,
    name: Seq<char>,
) -> bool {
    a.dom().contains(name) && b.dom().contains(name) && a[name] == b[name]
}

/// The candidate under examination is one of the assignments in `base` and
/// gives every variable a value.
pub open spec fn candidate_sound(
    s: UniquenessSearch,
    base: spec_fn(Map<Seq<char>, Seq<char>>) -> bool,
) -> bool {
    s.phase == SearchPhase::Alternative ==> satisfies(base, assignment(s.candidate@)) && covers(
        assignment(s.candidate@),
        names(s.variables@),
    )
}

/// A circuit whose witness is determined is never found underconstrained:
/// in a run against a solver that answers faithfully the search does not end
/// as underconstrained, whatever the inputs examined and however many
/// iterations are made.
pub proof fn lemma_determined_witness_never_underconstrained(
    states: Seq<UniquenessSearch>,
    answers: Seq<ModelResult>,
    base: spec_fn(Map<Seq<char>, Seq<char>>) -> bool,
    n: int,
)
    requires
        is_run(states, answers),
        all_faithful(states, answers, base),
        witness_determined(
            base,
            names(states[0].variables@),
            names(states[0].instances@),
            states[0].method,
        ),
        0 <= n < states.len(),
    ensures
        !(states[n].phase == SearchPhase::Done && states[n].status
            == AnalyzerOutputStatus::Underconstrained),
        candidate_sound(states[n], base),
        states[n].variables == states[0].variables,
        states[n].instances == states[0].instances,
        states[n].method == states[0].method,
    decreases n,
{
    if n > 0 {
        lemma_determined_witness_never_underconstrained(states, answers, base, n - 1);
        let before = states[n - 1];
        let after = states[n];
        let answer = answers[n - 1];
        assert(stepped(before, answer, after, outcome(after)));
        assert(faithful(before, answer, base));
        let variables = names(before.variables@);
        let instances = names(before.instances@);
        match before.phase {
            SearchPhase::Candidate => {
                if after.phase == SearchPhase::Alternative {
                    assert(asked(before, base, assignment(answer.result@)));
                }
            },
            SearchPhase::Alternative => {
                if answer.sat == Satisfiability::Satisfiable {
                    let found = assignment(answer.result@);
                    let candidate = assignment(before.candidate@);
                    assert(asked(before, base, found));
                    lemma_second_witness_differs(
                        variables,
                        candidate,
                        instances,
                        before.method,
                        found,
                    );
                    assert(satisfies(base, found) && satisfies(base, candidate));
                    assert forall|i: int|
                        0 <= i < variables.len() && held_equal(
                            #[trigger] variables[i],
                            instances,
                            before.method,
                        ) implies agree_on(found, candidate, variables[i]) by {
                        assert(candidate.dom().contains(variables[i]));
                    }
                    let i = choose|i: int|
                        0 <= i < variables.len() && !held_equal(
                            #[trigger] variables[i],
                            instances,
                            before.method,
                        ) && !(found.dom().contains(variables[i]) && found[variables[i]]
                            == candidate[variables[i]]);
                    assert(agree_on(found, candidate, variables[i]));
                    assert(false);
                }
            },
            _ => {},
        }
    }
}

/// Every atom of a candidate's public input is an entry of the candidate.
proof fn lemma_public_input_entries(candidate: Seq<Variable>, instances: Seq<Seq<char>>)
    ensures
        forall|i: int|
            0 <= i < public_input(candidate, instances).len() ==> exists|j: int|
                0 <= j < candidate.len() && candidate[j].name@ == (#[trigger] public_input(
                    candidate,
                    instances,
                )[i]).name && candidate[j].value.element@ == public_input(
                    candidate,
                    instances,
                )[i].value,
    decreases candidate.len(),
{
    if candidate.len() > 0 {
        let rest = candidate.drop_last();
        lemma_public_input_entries(rest, instances);
        let atoms = public_input(candidate, instances);
        let before = public_input(rest, instances);
        assert forall|i: int| 0 <= i < atoms.len() implies exists|j: int|
            0 <= j < candidate.len() && candidate[j].name@ == (#[trigger] atoms[i]).name
                && candidate[j].value.element@ == atoms[i].value by {
            if i < before.len() {
                assert(atoms[i] == before[i]);
                let j = choose|j: int|
                    0 <= j < rest.len() && rest[j].name@ == before[i].name
                        && rest[j].value.element@ == before[i].value;
                assert(candidate[j] == rest[j]);
            } else {
                let j = candidate.len() - 1;
                assert(candidate[j].name@ == atoms[i].name);
            }
        }
    }
}

/// A model that lists no variable twice has its own public input.
pub proof fn lemma_listed_once_has_own_input(candidate: Seq<Variable>, instances: Seq<Seq<char>>)
    requires
        variable_names(candidate).no_duplicates(),
    ensures
        same_public_input(candidate, instances, assignment(candidate)),
{
    lemma_public_input_entries(candidate, instances);
    let atoms = public_input(candidate, instances);
    assert forall|i: int| 0 <= i < atoms.len() implies atom_holds(
        #[trigger] atoms[i],
        assignment(candidate),
    ) by {
        let j = choose|j: int|
            0 <= j < candidate.len() && candidate[j].name@ == atoms[i].name
                && candidate[j].value.element@ == atoms[i].value;
        assert forall|l: int| j < l < candidate.len() implies candidate[l].name@
            != atoms[i].name by {
            assert(variable_names(candidate)[j] == candidate[j].name@);
            assert(variable_names(candidate)[l] == candidate[l].name@);
        }
        lemma_assignment_of_last(candidate, atoms[i].name, j);
    }
}

/// The class of an assignment.
pub open spec fn class_of(
    class: spec_fn(Map<Seq<char>, Seq<char>>) -> int,
    a: Map<Seq<char>, Seq<char>>,
) -> int {
    class(a)
}

/// The script admits at most `k` public inputs: its assignments fall into
/// `k` classes, and assignments of one class have one public input.
pub open spec fn at_most_inputs(
    base: spec_fn(Map<Seq<char>, Seq<char>>) -> bool,
    class: spec_fn(Map<Seq<char>, Seq<char>>) -> int,
    k: nat,
    instances: Seq<Seq<char>>,
) -> bool {
    &&& forall|a: Map<Seq<char>, Seq<char>>| #[trigger]
        satisfies(base, a) ==> 0 <= class_of(class, a) < k
    &&& forall|candidate: Seq<Variable>, a: Map<Seq<char>, Seq<char>>|
        satisfies(base, assignment(candidate)) && satisfies(base, a) && same_public_input(
            candidate,
            instances,
            assignment(candidate),
        ) && class_of(class, assignment(candidate)) == class_of(class, a)
            ==> #[trigger] same_public_input(candidate, instances, a)
}

/// Numbers below `k` that are all different are `k` at most.
pub proof fn lemma_pigeonhole(classes: Seq<int>, k: nat)
    requires
        classes.no_duplicates(),
        forall|i: int| 0 <= i < classes.len() ==> 0 <= #[trigger] classes[i] < k,
    ensures
        classes.len() <= k,
{
    classes.unique_seq_to_set();
    vstd::set_lib::lemma_int_range(0, k as int);
    assert(classes.to_set().subset_of(vstd::set_lib::set_int_range(0, k as int))) by {
        assert forall|c: int| classes.to_set().contains(c) implies vstd::set_lib::set_int_range(
            0,
            k as int,
        ).contains(c) by {
            let i = choose|i: int| 0 <= i < classes.len() && classes[i] == c;
            assert(0 <= classes[i] < k);
        }
    }
    vstd::set_lib::lemma_len_subset(classes.to_set(), vstd::set_lib::set_int_range(0, k as int));
}

/// The candidates that the search has recorded are assignments in `base`
/// that have their own public input.
pub open spec fn recorded_sound(
    s: UniquenessSearch,
    base: spec_fn(Map<Seq<char>, Seq<char>>) -> bool,
) -> bool {
    &&& forall|i: int|
        0 <= i < s.blocked@.len() ==> satisfies(base, assignment(#[trigger] s.blocked@[i]))
            && same_public_input(s.blocked@[i], names(s.instances@), assignment(s.blocked@[i]))
    &&& s.phase == SearchPhase::Alternative ==> satisfies(base, assignment(s.candidate@))
        && same_public_input(s.candidate@, names(s.instances@), assignment(s.candidate@))
}

/// The iteration count fits `k` public inputs: a candidate is asked for in
/// iteration `k + 1` at the latest, and examined in iteration `k` at the
/// latest.
pub open spec fn within(s: UniquenessSearch, k: nat) -> bool {
    match s.phase {
        SearchPhase::Base => true,
        SearchPhase::Candidate => s.iteration <= k + 1,
        SearchPhase::Alternative => s.iteration <= k,
        SearchPhase::Done => match s.status {
            AnalyzerOutputStatus::Overconstrained => true,
            AnalyzerOutputStatus::NotUnderconstrained => s.iteration <= k + 1,
            _ => s.iteration <= k,
        },
    }
}

/// The recorded candidates, the one under examination last.
pub open spec fn recorded(s: UniquenessSearch) -> Seq<Seq<Variable>> {
    if s.phase == SearchPhase::Alternative {
        s.blocked@.push(s.candidate@)
    } else {
        s.blocked@
    }
}

/// A search over `k` public inputs ends within `k` iterations: in a run
/// against a solver that answers faithfully, where the script admits at most
/// `k` public inputs, at most `k` candidates are examined, a further
/// candidate can be asked for only in iteration `k + 1` and is not found, and
/// at most `2 k + 2` queries are made in all.
pub proof fn lemma_run_ends_within_inputs(
    states: Seq<UniquenessSearch>,
    answers: Seq<ModelResult>,
    base: spec_fn(Map<Seq<char>, Seq<char>>) -> bool,
    class: spec_fn(Map<Seq<char>, Seq<char>>) -> int,
    k: nat,
    n: int,
)
    requires
        is_run(states, answers),
        all_faithful(states, answers, base),
        at_most_inputs(base, class, k, names(states[0].instances@)),
        0 <= n < states.len(),
    ensures
        recorded_sound(states[n], base),
        recorded(states[n]).len() <= k,
        within(states[n], k),
        n <= 2 * k + 2,
    decreases n,
{
    lemma_no_public_input_examined_twice(states, answers, base, n);
    lemma_queries_counted(states, answers, n);
    let after = states[n];
    let instances = names(after.instances@);
    assert(states[0].well_formed());
    assert(after.well_formed());
    if n > 0 {
        lemma_run_ends_within_inputs(states, answers, base, class, k, n - 1);
        lemma_no_public_input_examined_twice(states, answers, base, n - 1);
        let before = states[n - 1];
        let answer = answers[n - 1];
        assert(before.well_formed());
        assert(stepped(before, answer, after, outcome(after)));
        assert(faithful(before, answer, base));
        if before.phase == SearchPhase::Candidate && after.phase == SearchPhase::Alternative {
            assert(asked(before, base, assignment(answer.result@)));
            lemma_listed_once_has_own_input(answer.result@, instances);
        }
        if before.phase == SearchPhase::Alternative && answer.sat
            != Satisfiability::Satisfiable {
            assert forall|i: int| 0 <= i < after.blocked@.len() implies satisfies(
                base,
                assignment(#[trigger] after.blocked@[i]),
            ) && same_public_input(
                after.blocked@[i],
                instances,
                assignment(after.blocked@[i]),
            ) by {
                if i < before.blocked@.len() {
                    assert(after.blocked@[i] == before.blocked@[i]);
                } else {
                    assert(after.blocked@[i] == before.candidate@);
                }
            }
        }
    }
    assert(recorded_sound(after, base));
    let all = recorded(after);
    let classes = Seq::new(all.len(), |i: int| class_of(class, assignment(all[i])));
    assert forall|i: int| 0 <= i < all.len() implies satisfies(base, assignment(#[trigger] all[i]))
        && same_public_input(all[i], instances, assignment(all[i])) by {
        if i < after.blocked@.len() {
            assert(all[i] == after.blocked@[i]);
        }
    }
    assert forall|i: int, j: int| 0 <= i < j < all.len() implies !same_public_input(
        all[i],
        instances,
        assignment(all[j]),
    ) by {
        if j < after.blocked@.len() {
            assert(all[i] == after.blocked@[i]);
            assert(all[j] == after.blocked@[j]);
        } else {
            assert(all[i] == after.blocked@[i]);
        }
    }
    assert(classes.no_duplicates()) by {
        assert forall|i: int, j: int|
            0 <= i < classes.len() && 0 <= j < classes.len() && i != j implies classes[i]
            != classes[j] by {
            let (lo, hi) = if i < j {
                (i, j)
            } else {
                (j, i)
            };
            assert(satisfies(base, assignment(all[lo])));
            assert(satisfies(base, assignment(all[hi])));
            assert(!same_public_input(all[lo], instances, assignment(all[hi])));
        }
    }
    assert forall|i: int| 0 <= i < classes.len() implies 0 <= #[trigger] classes[i] < k by {
        assert(satisfies(base, assignment(all[i])));
    }
    lemma_pigeonhole(classes, k);
}

/// The classes of a list of models.
pub open spec fn classes_of(
    class: spec_fn(Map<Seq<char>, Seq<char>>) -> int,
    models: Seq<Seq<Variable>>,
) -> Seq<int> {
    Seq::new(models.len(), |i: int| class_of(class, assignment(models[i])))
}

/// Where fewer than `k` numbers below `k` are given, one below `k` is not
/// among them.
pub proof fn lemma_one_is_missing(classes: Seq<int>, k: nat) -> (missing: int)
    requires
        classes.no_duplicates(),
        classes.len() < k,
    ensures
        0 <= missing < k,
        !classes.contains(missing),
{
    classes.unique_seq_to_set();
    vstd::set_lib::lemma_int_range(0, k as int);
    let range = vstd::set_lib::set_int_range(0, k as int);
    vstd::seq_lib::seq_to_set_is_finite(classes);
    if range.subset_of(classes.to_set()) {
        vstd::set_lib::lemma_len_subset(range, classes.to_set());
        assert(false);
    }
    let missing = choose|c: int| range.contains(c) && !classes.to_set().contains(c);
    missing
}

/// The script admits exactly `k` public inputs: its assignments fall into
/// `k` classes, none of them empty, and two assignments are of one class
/// exactly where they have one public input.
pub open spec fn exactly_inputs(
    base: spec_fn(Map<Seq<char>, Seq<char>>) -> bool,
    class: spec_fn(Map<Seq<char>, Seq<char>>) -> int,
    k: nat,
    instances: Seq<Seq<char>>,
) -> bool {
    &&& at_most_inputs(base, class, k, instances)
    &&& forall|c: int| 0 <= c < k ==> #[trigger] inhabited(base, class, c)
    &&& forall|candidate: Seq<Variable>, a: Map<Seq<char>, Seq<char>>|
        satisfies(base, assignment(candidate)) && satisfies(base, a) && #[trigger] same_public_input(
            candidate,
            instances,
            a,
        ) ==> class_of(class, assignment(candidate)) == class_of(class, a)
}

/// Some assignment in `base` is of class `c`.
pub open spec fn inhabited(
    base: spec_fn(Map<Seq<char>, Seq<char>>) -> bool,
    class: spec_fn(Map<Seq<char>, Seq<char>>) -> int,
    c: int,
) -> bool {
    exists|a: Map<Seq<char>, Seq<char>>| #[trigger] satisfies(base, a) && class_of(class, a) == c
}

/// While fewer than `k` public inputs are excluded, something satisfies the
/// script: an assignment of a class that is not excluded yet.
proof fn lemma_some_input_is_left(
    s: UniquenessSearch,
    base: spec_fn(Map<Seq<char>, Seq<char>>) -> bool,
    class: spec_fn(Map<Seq<char>, Seq<char>>) -> int,
    k: nat,
) -> (a: Map<Seq<char>, Seq<char>>)
    requires
        exactly_inputs(base, class, k, names(s.instances@)),
        recorded_sound(s, base),
        inputs_apart(s),
        s.blocked@.len() < k,
    ensures
        admitted(s, base, a),
{
    let instances = names(s.instances@);
    let classes = classes_of(class, s.blocked@);
    assert(classes.no_duplicates()) by {
        assert forall|i: int, j: int|
            0 <= i < classes.len() && 0 <= j < classes.len() && i != j implies classes[i]
            != classes[j] by {
            let (lo, hi) = if i < j {
                (i, j)
            } else {
                (j, i)
            };
            assert(satisfies(base, assignment(s.blocked@[lo])));
            assert(satisfies(base, assignment(s.blocked@[hi])));
            assert(!same_public_input(s.blocked@[lo], instances, assignment(s.blocked@[hi])));
        }
    }
    let missing = lemma_one_is_missing(classes, k);
    assert(inhabited(base, class, missing));
    let a = choose|a: Map<Seq<char>, Seq<char>>| #[trigger]
        satisfies(base, a) && class_of(class, a) == missing;
    assert forall|j: int| 0 <= j < s.blocked@.len() implies some_atom_fails(
        public_input(#[trigger] s.blocked@[j], instances),
        a,
    ) by {
        assert(satisfies(base, assignment(s.blocked@[j])));
        if same_public_input(s.blocked@[j], instances, a) {
            assert(classes[j] == missing);
            assert(classes.contains(missing));
        }
    }
    a
}

/// The outcome of a search over `k` public inputs, each with one witness,
/// against a solver that answers faithfully. With a bound above `k` the
/// search examines every public input and ends as not underconstrained when
/// it asks for a candidate in iteration `k + 1`, after `2 k + 2` queries.
/// With a bound of `k` at most it ends as not underconstrained as far as it
/// looked after as many iterations as the bound allows, and twice as many
/// queries and one.
pub proof fn lemma_outcome_over_inputs(
    states: Seq<UniquenessSearch>,
    answers: Seq<ModelResult>,
    base: spec_fn(Map<Seq<char>, Seq<char>>) -> bool,
    class: spec_fn(Map<Seq<char>, Seq<char>>) -> int,
    k: nat,
)
    requires
        is_run(states, answers),
        all_faithful(states, answers, base),
        k >= 1,
        exactly_inputs(base, class, k, names(states[0].instances@)),
        witness_determined(
            base,
            names(states[0].variables@),
            names(states[0].instances@),
            states[0].method,
        ),
        states.last().phase == SearchPhase::Done,
    ensures
        if states[0].max_iterations > k {
            &&& states.last().status == AnalyzerOutputStatus::NotUnderconstrained
            &&& states.last().iteration == k + 1
            &&& answers.len() == 2 * k + 2
        } else {
            &&& states.last().status == AnalyzerOutputStatus::NotUnderconstrainedLocal
            &&& states.last().iteration == states[0].max_iterations
            &&& answers.len() == 2 * states[0].max_iterations + 1
        },
{
    let n = answers.len() as int;
    assert(states[0].well_formed());
    assert(n >= 1);
    let before = states[n - 1];
    let after = states[n];
    let answer = answers[n - 1];
    lemma_queries_counted(states, answers, n);
    lemma_queries_counted(states, answers, n - 1);
    lemma_no_public_input_examined_twice(states, answers, base, n - 1);
    lemma_run_ends_within_inputs(states, answers, base, class, k, n - 1);
    lemma_determined_witness_never_underconstrained(states, answers, base, n);
    assert(before.well_formed());
    assert(stepped(before, answer, after, outcome(after)));
    assert(faithful(before, answer, base));
    match before.phase {
        SearchPhase::Base => {
            if answer.sat == Satisfiability::Unsatisfiable {
                let a = lemma_some_input_is_left(before, base, class, k);
                assert(asked(before, base, a));
                assert(false);
            }
        },
        SearchPhase::Candidate => {
            if before.blocked@.len() < k {
                let a = lemma_some_input_is_left(before, base, class, k);
                assert(asked(before, base, a));
                assert(false);
            }
        },
        _ => {},
    }
}

} // verus!
