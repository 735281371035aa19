//! What the formulas of the search mean: which assignments satisfy the
//! formula of a second witness, and which satisfy the formula that excludes
//! a public input.

use vstd::prelude::*;
use crate::analyzer_io_type::VerificationMethod;
use crate::smt::{
    assert_line, disequality_text, disjunction_text, equality_text, names, NodeType,
};
use crate::smt_parser::Variable;
use crate::uniqueness::{
    blocking_parts, different_parts, held_equal, occurs_in, same_parts, UniquenessSearch,
};

verus! {

/// A variable set against a value.
pub struct Atom {
    pub name: Seq<char>,
    pub value: Seq<char>,
}

/// An assignment gives the atom's variable the atom's value.
pub open spec fn atom_holds(atom: Atom, solution: Map<Seq<char>, Seq<char>>) -> bool {
    solution.dom().contains(atom.name) && solution[atom.name] == atom.value
}

/// The formula that the atom holds.
pub open spec fn atom_text(atom: Atom) -> Seq<char> {
    equality_text(atom.name, atom.value, NodeType::Instance)
}

/// The formula that the atom does not hold.
pub open spec fn negated_atom_text(atom: Atom) -> Seq<char> {
    disequality_text(atom.name, atom.value, NodeType::Instance)
}

/// The entries of `candidate` that name an instance variable, in order.
pub open spec fn public_input(candidate: Seq<Variable>, instances: Seq<Seq<char>>) -> Seq<Atom>
    decreases candidate.len(),
{
    if candidate.len() == 0 {
        Seq::empty()
    } else if instances.contains(candidate.last().name@) {
        public_input(candidate.drop_last(), instances).push(
            Atom { name: candidate.last().name@, value: candidate.last().value.element@ },
        )
    } else {
        public_input(candidate.drop_last(), instances)
    }
}

/// `solution` has the public input of `candidate`: it gives every instance
/// variable of `candidate` the value it has there.
pub open spec fn same_public_input(
    candidate: Seq<Variable>,
    instances: Seq<Seq<char>>,
    solution: Map<Seq<char>, Seq<char>>,
) -> bool {
    forall|i: int|
        0 <= i < public_input(candidate, instances).len() ==> atom_holds(
            #[trigger] public_input(candidate, instances)[i],
            solution,
        )
}

/// `solution` satisfies the disjunction of the negated atoms.
pub open spec fn some_atom_fails(atoms: Seq<Atom>, solution: Map<Seq<char>, Seq<char>>) -> bool {
    exists|i: int| 0 <= i < atoms.len() && !atom_holds(#[trigger] atoms[i], solution)
}

/// The parts of the formula that excludes a public input are the negations
/// of its atoms, one by one.
pub proof fn lemma_blocking_parts_negate_public_input(
    candidate: Seq<Variable>,
    instances: Seq<Seq<char>>,
)
    ensures
        blocking_parts(candidate, instances).len() == public_input(candidate, instances).len(),
        forall|i: int|
            0 <= i < public_input(candidate, instances).len() ==> #[trigger] blocking_parts(
                candidate,
                instances,
            )[i] == negated_atom_text(public_input(candidate, instances)[i]),
    decreases candidate.len(),
{
    if candidate.len() > 0 {
        lemma_blocking_parts_negate_public_input(candidate.drop_last(), instances);
    }
}

/// An assignment satisfies the formula that excludes the public input of
/// `candidate` exactly when it has another public input.
pub proof fn lemma_blocking_excludes_public_input(
    candidate: Seq<Variable>,
    instances: Seq<Seq<char>>,
    solution: Map<Seq<char>, Seq<char>>,
)
    ensures
        some_atom_fails(public_input(candidate, instances), solution) <==> !same_public_input(
            candidate,
            instances,
            solution,
        ),
{
}

/// The script of a search holds, for each candidate examined so far, the
/// assertion that some instance variable differs from its value in that
/// candidate.
pub proof fn lemma_exclusions_stand_in_script(search: UniquenessSearch)
    requires
        search.well_formed(),
    ensures
        forall|k: int|
            0 <= k < search.blocked@.len() ==> occurs_in(
                search.printer@.text,
                assert_line(
                    disjunction_text(
                        blocking_parts(#[trigger] search.blocked@[k], names(search.instances@)),
                    ),
                ),
            ),
{
}

/// The variables that are held equal, in order, each set against its value
/// under `model`.
pub open spec fn held_atoms(
    variables: Seq<Seq<char>>,
    model: Map<Seq<char>, Seq<char>>,
    instances: Seq<Seq<char>>,
    method: VerificationMethod,
) -> Seq<Atom>
    decreases variables.len(),
{
    if variables.len() == 0 {
        Seq::empty()
    } else if held_equal(variables.last(), instances, method) {
        held_atoms(variables.drop_last(), model, instances, method).push(
            Atom { name: variables.last(), value: model[variables.last()] },
        )
    } else {
        held_atoms(variables.drop_last(), model, instances, method)
    }
}

/// The variables that are not held equal, in order, each set against its
/// value under `model`.
pub open spec fn free_atoms(
    variables: Seq<Seq<char>>,
    model: Map<Seq<char>, Seq<char>>,
    instances: Seq<Seq<char>>,
    method: VerificationMethod,
) -> Seq<Atom>
    decreases variables.len(),
{
    if variables.len() == 0 {
        Seq::empty()
    } else if !held_equal(variables.last(), instances, method) {
        free_atoms(variables.drop_last(), model, instances, method).push(
            Atom { name: variables.last(), value: model[variables.last()] },
        )
    } else {
        free_atoms(variables.drop_last(), model, instances, method)
    }
}

/// `solution` satisfies the formula of a second witness: every held atom
/// holds and some free atom fails.
pub open spec fn is_second_witness(
    variables: Seq<Seq<char>>,
    model: Map<Seq<char>, Seq<char>>,
    instances: Seq<Seq<char>>,
    method: VerificationMethod,
    solution: Map<Seq<char>, Seq<char>>,
) -> bool {
    &&& forall|i: int|
        0 <= i < held_atoms(variables, model, instances, method).len() ==> atom_holds(
            #[trigger] held_atoms(variables, model, instances, method)[i],
            solution,
        )
    &&& some_atom_fails(free_atoms(variables, model, instances, method), solution)
}

/// The parts of the formula of a second witness are the held atoms and the
/// negations of the free atoms, one by one.
pub proof fn lemma_witness_parts_are_atoms(
    variables: Seq<Seq<char>>,
    model: Map<Seq<char>, Seq<char>>,
    instances: Seq<Seq<char>>,
    method: VerificationMethod,
)
    ensures
        same_parts(variables, model, instances, method).len() == held_atoms(
            variables,
            model,
            instances,
            method,
        ).len(),
        forall|i: int|
            0 <= i < held_atoms(variables, model, instances, method).len() ==> #[trigger] same_parts(
                variables,
                model,
                instances,
                method,
            )[i] == atom_text(held_atoms(variables, model, instances, method)[i]),
        different_parts(variables, model, instances, method).len() == free_atoms(
            variables,
            model,
            instances,
            method,
        ).len(),
        forall|i: int|
            0 <= i < free_atoms(variables, model, instances, method).len()
                ==> #[trigger] different_parts(variables, model, instances, method)[i]
                == negated_atom_text(free_atoms(variables, model, instances, method)[i]),
    decreases variables.len(),
{
    if variables.len() > 0 {
        lemma_witness_parts_are_atoms(variables.drop_last(), model, instances, method);
    }
}

/// Every held atom is a variable that is held equal, and every variable
/// that is held equal has its atom; likewise the free atoms.
pub proof fn lemma_atoms_cover_variables(
    variables: Seq<Seq<char>>,
    model: Map<Seq<char>, Seq<char>>,
    instances: Seq<Seq<char>>,
    method: VerificationMethod,
)
    ensures
        forall|i: int|
            0 <= i < variables.len() && held_equal(#[trigger] variables[i], instances, method)
                ==> held_atoms(variables, model, instances, method).contains(
                Atom { name: variables[i], value: model[variables[i]] },
            ),
        forall|j: int|
            0 <= j < free_atoms(variables, model, instances, method).len() ==> {
                let atom = #[trigger] free_atoms(variables, model, instances, method)[j];
                !held_equal(atom.name, instances, method) && variables.contains(atom.name)
                    && atom.value == model[atom.name]
            },
    decreases variables.len(),
{
    if variables.len() > 0 {
        let rest = variables.drop_last();
        lemma_atoms_cover_variables(rest, model, instances, method);
        let held = held_atoms(variables, model, instances, method);
        let held_rest = held_atoms(rest, model, instances, method);
        assert forall|i: int|
            0 <= i < variables.len() && held_equal(
                #[trigger] variables[i],
                instances,
                method,
            ) implies held.contains(Atom { name: variables[i], value: model[variables[i]] }) by {
            let atom = Atom { name: variables[i], value: model[variables[i]] };
            if i == variables.len() - 1 {
                assert(held[held.len() - 1] == atom);
            } else {
                assert(rest[i] == variables[i]);
                let k = choose|k: int| 0 <= k < held_rest.len() && held_rest[k] == atom;
                assert(held[k] == atom);
            }
        }
        let free = free_atoms(variables, model, instances, method);
        let free_rest = free_atoms(rest, model, instances, method);
        assert forall|j: int| 0 <= j < free.len() implies ({
            let atom = #[trigger] free[j];
            !held_equal(atom.name, instances, method) && variables.contains(atom.name)
                && atom.value == model[atom.name]
        }) by {
            if j < free_rest.len() {
                assert(free[j] == free_rest[j]);
                let name = free_rest[j].name;
                let k = choose|k: int| 0 <= k < rest.len() && rest[k] == name;
                assert(variables[k] == name);
            } else {
                assert(variables[variables.len() - 1] == free[j].name);
            }
        }
    }
}

/// A second witness has the candidate's value for every variable that is
/// held equal and another value, or none, for some variable that is not:
/// the same public input with a different witness.
pub proof fn lemma_second_witness_differs(
    variables: Seq<Seq<char>>,
    model: Map<Seq<char>, Seq<char>>,
    instances: Seq<Seq<char>>,
    method: VerificationMethod,
    solution: Map<Seq<char>, Seq<char>>,
)
    requires
        is_second_witness(variables, model, instances, method, solution),
    ensures
        forall|i: int|
            0 <= i < variables.len() && held_equal(#[trigger] variables[i], instances, method)
                ==> solution.dom().contains(variables[i]) && solution[variables[i]]
                == model[variables[i]],
        exists|i: int|
            0 <= i < variables.len() && !held_equal(#[trigger] variables[i], instances, method)
                && !(solution.dom().contains(variables[i]) && solution[variables[i]]
                == model[variables[i]]),
{
    lemma_atoms_cover_variables(variables, model, instances, method);
    let held = held_atoms(variables, model, instances, method);
    assert forall|i: int|
        0 <= i < variables.len() && held_equal(
            #[trigger] variables[i],
            instances,
            method,
        ) implies solution.dom().contains(variables[i]) && solution[variables[i]]
        == model[variables[i]] by {
        let atom = Atom { name: variables[i], value: model[variables[i]] };
        let k = choose|k: int| 0 <= k < held.len() && held[k] == atom;
        assert(atom_holds(held[k], solution));
    }
    let free = free_atoms(variables, model, instances, method);
    let j = choose|j: int| 0 <= j < free.len() && !atom_holds(#[trigger] free[j], solution);
    let atom = free[j];
    let i = choose|i: int| 0 <= i < variables.len() && variables[i] == atom.name;
    assert(!held_equal(variables[i], instances, method));
}

} // verus!
