use truss_fem::model::{MemberChecks, Model};

const SAMPLE: &str = "SPACE TRUSS EXAMPLE OF SECTION\n\
    3,4\n\
    1,0,1,0,72.0,0.,0.,0.,0.,-1000.0\n\
    2,1,1,1,0.0,36.0,0.,0.,0.,0.\n\
    3,1,1,1,0.0,36.0,72.0,0.,0.,0.\n\
    4,1,1,1,0.0,0.0,-48.0,0.,0.,0.\n\
    1,1,4,1.2E+6,0.187\n\
    2,1,2,1.2E+6,0.302\n\
    3,1,3,1.2E+6,0.726\n";

fn err_of(text: &str) -> String {
    match Model::parse(text) {
        Ok(_) => panic!("expected an error"),
        Err(e) => e.message(),
    }
}

#[test]
fn parses_sample() {
    let m = Model::parse(SAMPLE).unwrap();
    assert_eq!(m.nodes.len(), 4);
    assert_eq!(m.elements.len(), 3);
    // Element 1 connects node id 1 (index 0) and node id 4 (index 3).
    assert_eq!(m.elements[0].nodes, [0, 3]);
    assert_eq!(m.nodes[0].force[2].parse::<f64>().unwrap(), -1000.0);
    assert!(m.nodes[1].fixed.iter().all(|&f| f));
}

#[test]
fn input_format_round_trips() {
    let m = Model::parse(SAMPLE).unwrap();
    let m2 = Model::parse(&m.to_input_string()).unwrap();
    assert_eq!(m2.nodes.len(), m.nodes.len());
    assert_eq!(m2.elements.len(), m.elements.len());
    assert_eq!(m2.elements[0].nodes, m.elements[0].nodes);
    assert_eq!(m2.nodes[0].force, m.nodes[0].force);
    assert_eq!(m2.title, m.title);
}

#[test]
fn round_trip_keeps_every_field() {
    let m = Model::parse(SAMPLE).unwrap();
    let m2 = Model::parse(&m.to_input_string()).unwrap();
    for (a, b) in m.nodes.iter().zip(m2.nodes.iter()) {
        assert_eq!(a.id, b.id);
        assert_eq!(a.fixed, b.fixed);
        assert_eq!(a.coord, b.coord);
        assert_eq!(a.force, b.force);
    }
    for (a, b) in m.elements.iter().zip(m2.elements.iter()) {
        assert_eq!(a.id, b.id);
        assert_eq!(a.nodes, b.nodes);
        assert_eq!(a.e, b.e);
        assert_eq!(a.area, b.area);
    }
}

#[test]
fn written_input_text() {
    let m = Model::parse("T\n1 2\n5 1 0 1 0 0 0 1 2 3\n7 0 0 0 1.5 0 0 0 0 0\n9 5 7 200 1\n").unwrap();
    assert_eq!(
        m.to_input_string(),
        "T\n1,2\n# id, fixX, fixY, fixZ, x, y, z, Fx, Fy, Fz\n5,1,0,1,0,0,0,1,2,3\n7,0,0,0,1.5,0,0,0,0,0\n# id, nodeA, nodeB, E, A\n9,5,7,200,1\n"
    );
}

#[test]
fn comments_blank_lines_and_separators() {
    let text = "  My truss  \n# a comment\n\n1 , 2   # counts\n1\t0 0 0  0 0 0 0 0 0\n\n2,1,1,1,3,4,0,0,0,0\n# elements\n1 1 2 10 2 # member\n";
    let m = Model::parse(text).unwrap();
    assert_eq!(m.title, "My truss");
    assert_eq!(m.nodes.len(), 2);
    assert_eq!(m.nodes[1].coord, ["3".to_string(), "4".to_string(), "0".to_string()]);
    assert_eq!(m.elements[0].nodes, [0, 1]);
    assert_eq!(m.elements[0].e, "10");
}

#[test]
fn title_keeps_hash_and_crlf_lines() {
    let m = Model::parse("Truss #1\r\n1,2\r\n1,0,0,0,0,0,0,0,0,0\r\n2,0,0,0,1,0,0,0,0,0\r\n1,1,2,1,1\r\n").unwrap();
    assert_eq!(m.title, "Truss #1");
    assert_eq!(m.elements[0].area, "1");
}

#[test]
fn elements_resolve_node_ids() {
    let m = Model::parse("T\n1,3\n30,0,0,0,0,0,0,0,0,0\n10,0,0,0,1,0,0,0,0,0\n20,0,0,0,2,0,0,0,0,0\n1,20,10,1,1\n").unwrap();
    assert_eq!(m.elements[0].nodes, [2, 1]);
}

#[test]
fn float_literals_kept_as_written() {
    let m = Model::parse("T\n1,2\n1,0,0,0,-1.5e3,+.5,inf,NaN,1.,7E-2\n2,0,0,0,1,0,0,0,0,0\n1,1,2,1.2E+6,0.187\n").unwrap();
    assert_eq!(m.nodes[0].coord, ["-1.5e3".to_string(), "+.5".to_string(), "inf".to_string()]);
    assert_eq!(m.nodes[0].force, ["NaN".to_string(), "1.".to_string(), "7E-2".to_string()]);
    assert_eq!(m.elements[0].e.parse::<f64>().unwrap(), 1.2e6);
}

#[test]
fn error_empty_input() {
    assert_eq!(err_of(""), "input is empty: expected a title line");
    assert_eq!(err_of("   \n1,1\n"), "input is empty: expected a title line");
}

#[test]
fn error_missing_counts() {
    assert_eq!(err_of("title\n# nothing\n\n"), "missing counts line (expected '<elements>,<nodes>')");
}

#[test]
fn error_counts_line_short() {
    assert_eq!(err_of("title\n 3  # one value\n"), "counts line must have 2 values '<elements>,<nodes>', got: '3'");
}

#[test]
fn error_invalid_counts() {
    assert_eq!(err_of("title\nx,2\n"), "invalid element count: 'x'");
    assert_eq!(err_of("title\n1,-2\n"), "invalid node count: '-2'");
}

#[test]
fn error_missing_node_lines() {
    assert_eq!(err_of("title\n1,2\n1,0,0,0,0,0,0,0,0,0\n"), "expected 2 node lines but only found 1");
}

#[test]
fn error_node_line_short() {
    assert_eq!(
        err_of("title\n1,1\n 1,0,0 \n"),
        "node line needs 10 values (id, fixX, fixY, fixZ, x, y, z, Fx, Fy, Fz), got 3: '1,0,0'"
    );
}

#[test]
fn error_node_fields() {
    assert_eq!(err_of("t\n1,1\na,0,0,0,0,0,0,0,0,0\n"), "invalid node id: 'a'");
    assert_eq!(err_of("t\n1,1\n1,0,yes,0,0,0,0,0,0,0\n"), "invalid fixY: 'yes'");
    assert_eq!(err_of("t\n1,1\n1,0,0,0,0,1..2,0,0,0,0\n"), "invalid y: '1..2'");
    assert_eq!(err_of("t\n1,1\n1,0,0,0,0,0,0,0,0,e5\n"), "invalid Fz: 'e5'");
}

#[test]
fn error_duplicate_node_id() {
    assert_eq!(
        err_of("t\n1,3\n4,0,0,0,0,0,0,0,0,0\n5,0,0,0,1,0,0,0,0,0\n4,0,0,0,2,0,0,0,0,0\n1,4,5,1,1\n"),
        "duplicate node id 4"
    );
}

#[test]
fn error_element_lines() {
    let nodes = "t\n2,2\n1,0,0,0,0,0,0,0,0,0\n2,0,0,0,1,0,0,0,0,0\n";
    assert_eq!(err_of(&format!("{nodes}1,1,2,1,1\n")), "expected 2 element lines but only found 1");
    assert_eq!(
        err_of(&format!("{nodes}1,1,2\n")),
        "element line needs 5 values (id, nodeA, nodeB, E, A), got 3: '1,1,2'"
    );
    assert_eq!(err_of(&format!("{nodes}1,1,2,x,1\n")), "invalid elastic modulus E: 'x'");
    assert_eq!(err_of(&format!("{nodes}1,1,2,1,1\n2,1,3,1,1\n")), "element 2 references unknown node id 3");
    assert_eq!(err_of(&format!("{nodes}-7,9,2,1,1\n")), "element -7 references unknown node id 9");
}

#[test]
fn validate_reports_first_problem() {
    let m = Model::parse("t\n2,2\n1,0,0,0,0,0,0,0,0,0\n2,0,0,0,1,0,0,0,0,0\n1,1,2,-5,1\n2,1,1,1,1\n").unwrap();
    let ok = MemberChecks { zero_length: false, non_positive_modulus: false, non_positive_area: false };
    let bad_e = MemberChecks { zero_length: false, non_positive_modulus: true, non_positive_area: false };
    assert_eq!(
        m.validate(&vec![bad_e, ok]).unwrap_err().message(),
        "element 1 has non-positive elastic modulus E=-5"
    );
    assert_eq!(
        m.validate(&vec![ok, ok]).unwrap_err().message(),
        "element 2 connects a node to itself"
    );
    let zero = MemberChecks { zero_length: true, non_positive_modulus: true, non_positive_area: true };
    assert_eq!(
        m.validate(&vec![zero, ok]).unwrap_err().message(),
        "element 1 has zero length (coincident nodes)"
    );
    let bad_a = MemberChecks { zero_length: false, non_positive_modulus: false, non_positive_area: true };
    assert_eq!(
        m.validate(&vec![bad_a, ok]).unwrap_err().message(),
        "element 1 has non-positive area A=1"
    );
}

#[test]
fn validate_empty_models() {
    let good = Model::parse(SAMPLE).unwrap();
    let no_nodes = Model { title: "t".to_string(), nodes: vec![], elements: vec![] };
    assert_eq!(no_nodes.validate(&vec![]).unwrap_err().message(), "model has no nodes");
    let no_elements = Model { title: "t".to_string(), nodes: good.nodes.clone(), elements: vec![] };
    assert_eq!(no_elements.validate(&vec![]).unwrap_err().message(), "model has no elements");
    let ok = MemberChecks { zero_length: false, non_positive_modulus: false, non_positive_area: false };
    assert!(good.validate(&vec![ok, ok, ok]).is_ok());
}

#[test]
fn dof_count_is_three_per_node() {
    let m = Model::parse(SAMPLE).unwrap();
    assert_eq!(m.dof_count(), 12);
}

#[test]
fn extra_lines_after_elements_are_ignored() {
    let m = Model::parse(&format!("{SAMPLE}9,9,9\n")).unwrap();
    assert_eq!(m.elements.len(), 3);
}

#[test]
fn inserted_comment_and_blank_lines_change_nothing() {
    let m = Model::parse(SAMPLE).unwrap();
    let mut lines: Vec<&str> = SAMPLE.lines().collect();
    lines.insert(1, "# a comment line");
    lines.insert(3, "   ");
    lines.insert(6, "");
    let text = lines.join("\n") + "\n";
    let m2 = Model::parse(&text).unwrap();
    assert_eq!(m2.to_input_string(), m.to_input_string());
    assert_eq!(m2.title, m.title);
}

#[test]
fn parsed_ids_are_distinct_and_indices_valid() {
    let m = Model::parse(SAMPLE).unwrap();
    for (i, a) in m.nodes.iter().enumerate() {
        for b in &m.nodes[i + 1..] {
            assert_ne!(a.id, b.id);
        }
    }
    for e in &m.elements {
        assert!(e.nodes[0] < m.nodes.len() && e.nodes[1] < m.nodes.len());
    }
}

#[test]
fn error_empty_models() {
    assert_eq!(err_of("T\n0,0"), "model has no nodes");
    assert_eq!(err_of("T\n0,1\n1,0,0,0,0,0,0,0,0,0\n"), "model has no elements");
    // The element lines are read before the model is found empty.
    assert_eq!(err_of("T\n1,0\n1,1,2,1,1\n"), "element 1 references unknown node id 1");
}

#[test]
fn appended_comments_and_exchanged_separators_change_nothing() {
    let plain = Model::parse(SAMPLE).unwrap();
    let edited = "SPACE TRUSS EXAMPLE OF SECTION\n\
        3 4   # counts\n\
        1,0 1,0,72.0\t0.,0.,0.,0.,-1000.0\n\
        2 1 1 1 0.0 36.0 0. 0. 0. 0. # a support\n\
        3,1,1,1,0.0,36.0,72.0,0.,0.,0.\n\
        \t  \n\
        4,1,1,1,0.0,0.0,-48.0,0.,0.,0.\n\
        1\t1\t4\t1.2E+6\t0.187\n\
        2,1,2,1.2E+6,0.302#\n\
        3,1,3,1.2E+6,0.726\n";
    let m = Model::parse(edited).unwrap();
    assert_eq!(m.to_input_string(), plain.to_input_string());
    // Exchanging separators or appending a comment keeps an error an error.
    assert!(Model::parse("T\n1 1\n1 0 0 0 0 0 0 0 0 x # c\n").is_err());
}

#[test]
fn checked_reads_a_model_in_full() {
    let ok = MemberChecks { zero_length: false, non_positive_modulus: false, non_positive_area: false };
    let self_joined = Model::parse("T\n1,2\n1,0,0,0,0,0,0,0,0,0\n2,0,0,0,1,0,0,0,0,0\n7,2,2,1,1\n").unwrap();
    assert_eq!(
        self_joined.checked(&vec![ok]).unwrap_err().message(),
        "element 7 connects a node to itself"
    );
    let good = Model::parse(SAMPLE).unwrap();
    let m = good.checked(&vec![ok, ok, ok]).unwrap();
    assert_eq!(m.elements.len(), 3);
    let zero = MemberChecks { zero_length: true, ..ok };
    let good = Model::parse(SAMPLE).unwrap();
    assert_eq!(
        good.checked(&vec![ok, zero, ok]).unwrap_err().message(),
        "element 2 has zero length (coincident nodes)"
    );
}
