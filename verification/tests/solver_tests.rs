use truss_fem::model::Model;
use truss_fem::solver::{free_dof_indices, free_dofs, member_state, supports, MemberState, SolveError};

const SAMPLE: &str = "SPACE TRUSS EXAMPLE OF SECTION\n3,4\n1,0,1,0,72.0,0.,0.,0.,0.,-1000.0\n2,1,1,1,0.0,36.0,0.,0.,0.,0.\n3,1,1,1,0.0,36.0,72.0,0.,0.,0.\n4,1,1,1,0.0,0.0,-48.0,0.,0.,0.\n1,1,4,1.2E+6,0.187\n2,1,2,1.2E+6,0.302\n3,1,3,1.2E+6,0.726\n";

#[test]
fn free_dofs_of_sample() {
    let m = Model::parse(SAMPLE).unwrap();
    assert_eq!(free_dof_indices(&m).unwrap(), vec![0, 2]);
    assert_eq!(free_dofs(&m), 2);
    assert_eq!(supports(&m), 4);
}

#[test]
fn free_dof_count_matches_indices() {
    let m = Model::parse("t\n1,3\n1,0,0,0,0,0,0,0,0,0\n2,1,0,1,1,0,0,0,0,0\n3,1,1,1,2,0,0,0,0,0\n1,1,2,1,1\n").unwrap();
    let idx = free_dof_indices(&m).unwrap();
    assert_eq!(idx, vec![0, 1, 2, 4]);
    assert_eq!(free_dofs(&m), idx.len());
    assert_eq!(supports(&m), 2);
}

#[test]
fn all_fixed_is_no_free_dof() {
    let m = Model::parse("t\n1,2\n1,1,1,1,0,0,0,0,0,0\n2,1,1,1,1,0,0,0,0,0\n1,1,2,1,1\n").unwrap();
    assert_eq!(free_dof_indices(&m).unwrap_err(), SolveError::NoFreeDof);
    assert_eq!(free_dofs(&m), 0);
}

#[test]
fn solve_error_messages() {
    assert_eq!(
        SolveError::NoFreeDof.message(),
        "all degrees of freedom are fixed: the model has nothing to solve"
    );
    assert_eq!(
        SolveError::Singular.message(),
        "the stiffness matrix is singular: the truss is unstable (a mechanism) for the given supports — add constraints or members"
    );
}

#[test]
fn member_states() {
    assert_eq!(member_state(true, false), MemberState::Tension);
    assert_eq!(member_state(false, true), MemberState::Compression);
    assert_eq!(member_state(false, false), MemberState::ZeroForce);
    assert_eq!(MemberState::Tension.label(), "tension");
    assert_eq!(MemberState::Compression.label(), "compression");
    assert_eq!(MemberState::ZeroForce.label(), "zero-force");
}
