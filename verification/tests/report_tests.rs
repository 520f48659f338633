use truss_fem::report::{
    json_report, json_str, text_report, JsonDocument, JsonElement, JsonNode, TextDocument,
    TextElement, TextNode,
};
use truss_fem::model::Model;
use truss_fem::solver::{supports, MemberState};

fn line(s: &mut String, t: String) {
    s.push_str(&t);
    s.push('\n');
}

struct N {
    id: i64,
    fixed: [bool; 3],
    coord: [f64; 3],
    load: [f64; 3],
    disp: [f64; 3],
    reac: [f64; 3],
}

struct E {
    id: i64,
    ids: [i64; 2],
    length: f64,
    force: f64,
    stress: f64,
    strain: f64,
    elong: f64,
    state: MemberState,
}

fn sample() -> (Vec<N>, Vec<E>) {
    let nodes = vec![
        N { id: 1, fixed: [false, true, false], coord: [72.0, 0.0, 0.0], load: [0.0, 0.0, -1000.0], disp: [-0.0071, 0.0, -0.2668], reac: [0.0, 223.1, 0.0] },
        N { id: 2, fixed: [true, true, true], coord: [0.0, 36.0, 0.0], load: [0.0; 3], disp: [0.0; 3], reac: [-1035.5, 258.9, 0.0] },
        N { id: 30, fixed: [false, false, false], coord: [1.5, 2.0, -3.25], load: [0.0; 3], disp: [1e-9, 2.0, 3.0], reac: [0.0; 3] },
    ];
    let elements = vec![
        E { id: 1, ids: [1, 30], length: 86.5332, force: -1113.4, stress: -5954.1, strain: -0.004962, elong: -0.4293, state: MemberState::Compression },
        E { id: 12345, ids: [2, 1], length: 80.4984, force: 0.0, stress: 0.0, strain: 0.0, elong: 0.0, state: MemberState::ZeroForce },
    ];
    (nodes, elements)
}

fn label(s: MemberState) -> &'static str {
    match s {
        MemberState::Tension => "tension",
        MemberState::Compression => "compression",
        MemberState::ZeroForce => "zero-force",
    }
}

#[test]
fn text_report_layout() {
    let (nodes, elements) = sample();
    let max = 0.2668f64;
    let doc = TextDocument {
        title: "Demo truss".to_string(),
        planar: false,
        node_count: nodes.len(),
        element_count: elements.len(),
        max_abs_displacement: format!("{:.6e}", max),
        nodes: nodes
            .iter()
            .map(|n| TextNode {
                id: n.id,
                fixed: n.fixed,
                displacement: n.disp.map(|v| format!("{:.6e}", v)),
                reaction: n.reac.map(|v| format!("{:.4}", v)),
            })
            .collect(),
        elements: elements
            .iter()
            .map(|e| TextElement {
                id: e.id,
                node_ids: e.ids,
                length: format!("{:.4}", e.length),
                axial_force: format!("{:.4}", e.force),
                stress: format!("{:.4}", e.stress),
                state: e.state,
            })
            .collect(),
    };
    let mut s = String::new();
    line(&mut s, format!("============================================================"));
    line(&mut s, format!(" Truss FEM Analysis Report"));
    line(&mut s, format!("============================================================"));
    line(&mut s, format!(" Title      : {}", "Demo truss"));
    line(&mut s, format!(" Type       : {} truss", "3D (space)"));
    line(&mut s, format!(" Nodes      : {}", 3));
    line(&mut s, format!(" Elements   : {}", 2));
    line(&mut s, format!(" Max |disp| : {:.6e}", max));
    s.push('\n');
    line(&mut s, format!("-- Nodal Displacements ------------------------------------"));
    line(&mut s, format!("  {:>5}  {:>14}  {:>14}  {:>14}", "Node", "Ux", "Uy", "Uz"));
    for n in &nodes {
        line(&mut s, format!("  {:>5}  {:>14.6e}  {:>14.6e}  {:>14.6e}", n.id, n.disp[0], n.disp[1], n.disp[2]));
    }
    s.push('\n');
    line(&mut s, format!("-- Support Reactions --------------------------------------"));
    line(&mut s, format!("  {:>5}  {:>14}  {:>14}  {:>14}", "Node", "Rx", "Ry", "Rz"));
    for n in &nodes {
        if n.fixed.iter().any(|&f| f) {
            line(&mut s, format!("  {:>5}  {:>14.4}  {:>14.4}  {:>14.4}", n.id, n.reac[0], n.reac[1], n.reac[2]));
        }
    }
    s.push('\n');
    line(&mut s, format!("-- Element Forces -----------------------------------------"));
    line(&mut s, format!("  {:>5}  {:>5} {:>5}  {:>12}  {:>14}  {:>14}  {:>12}",
        "Elem", "A", "B", "Length", "Axial Force", "Stress", "State"
    ));
    for e in &elements {
        line(&mut s, format!("  {:>5}  {:>5} {:>5}  {:>12.4}  {:>14.4}  {:>14.4}  {:>12}",
            e.id, e.ids[0], e.ids[1], e.length, e.force, e.stress, label(e.state)
        ));
    }
    s.push('\n');
    line(&mut s, format!(" Sign convention: axial force/stress > 0 = tension, < 0 = compression."));
    line(&mut s, format!("============================================================"));
    assert_eq!(text_report(&doc), s);
}

#[test]
fn text_report_planar_without_supports() {
    let doc = TextDocument {
        title: "P".to_string(),
        planar: true,
        node_count: 1,
        element_count: 0,
        max_abs_displacement: "0e0".to_string(),
        nodes: vec![TextNode {
            id: -4,
            fixed: [false; 3],
            displacement: ["a".to_string(), "b".to_string(), "c".to_string()],
            reaction: ["rx1".to_string(), "ry1".to_string(), "rz1".to_string()],
        }],
        elements: vec![],
    };
    let r = text_report(&doc);
    assert!(r.contains(" Type       : 2D (planar) truss\n"));
    assert!(r.contains("\n     -4               a               b               c\n"));
    assert!(!r.contains("rx1"));
}

fn json_num(v: f64) -> String {
    if v.is_finite() {
        format!("{}", v)
    } else {
        "null".to_string()
    }
}

#[test]
fn json_report_layout() {
    let (nodes, elements) = sample();
    let title = "Demo \"truss\"";
    let max = f64::INFINITY;
    let nums = |v: &[f64; 3]| [json_num(v[0]), json_num(v[1]), json_num(v[2])];
    let doc = JsonDocument {
        title: title.to_string(),
        planar: true,
        max_abs_displacement: json_num(max),
        nodes: nodes
            .iter()
            .map(|n| JsonNode {
                id: n.id,
                coord: nums(&n.coord),
                fixed: n.fixed,
                load: nums(&n.load),
                displacement: nums(&n.disp),
                reaction: nums(&n.reac),
            })
            .collect(),
        elements: elements
            .iter()
            .map(|e| JsonElement {
                id: e.id,
                node_ids: e.ids,
                length: json_num(e.length),
                axial_force: json_num(e.force),
                stress: json_num(e.stress),
                strain: json_num(e.strain),
                elongation: json_num(e.elong),
                state: e.state,
            })
            .collect(),
    };
    let mut s = String::new();
    s.push_str("{\n");
    s.push_str(&format!("  \"title\": {},\n", json_str(title)));
    s.push_str(&format!("  \"planar\": {},\n", true));
    s.push_str(&format!("  \"maxAbsDisplacement\": {},\n", json_num(max)));
    s.push_str("  \"nodes\": [\n");
    for (i, m) in nodes.iter().enumerate() {
        let comma = if i + 1 < nodes.len() { "," } else { "" };
        s.push_str(&format!("    {{ \"id\": {}, \"coord\": [{}, {}, {}], \"fixed\": [{}, {}, {}], \
             \"load\": [{}, {}, {}], \"displacement\": [{}, {}, {}], \
             \"reaction\": [{}, {}, {}] }}{}\n",
            m.id,
            json_num(m.coord[0]), json_num(m.coord[1]), json_num(m.coord[2]),
            m.fixed[0], m.fixed[1], m.fixed[2],
            json_num(m.load[0]), json_num(m.load[1]), json_num(m.load[2]),
            json_num(m.disp[0]), json_num(m.disp[1]), json_num(m.disp[2]),
            json_num(m.reac[0]), json_num(m.reac[1]), json_num(m.reac[2]),
            comma
        ));
    }
    s.push_str("  ],\n");
    s.push_str("  \"elements\": [\n");
    for (i, e) in elements.iter().enumerate() {
        let comma = if i + 1 < elements.len() { "," } else { "" };
        s.push_str(&format!("    {{ \"id\": {}, \"nodes\": [{}, {}], \"length\": {}, \
             \"axialForce\": {}, \"stress\": {}, \"strain\": {}, \
             \"elongation\": {}, \"state\": {} }}{}\n",
            e.id,
            e.ids[0], e.ids[1],
            json_num(e.length),
            json_num(e.force),
            json_num(e.stress),
            json_num(e.strain),
            json_num(e.elong),
            json_str(label(e.state)),
            comma
        ));
    }
    s.push_str("  ]\n");
    s.push_str("}\n");
    assert_eq!(json_report(&doc), s);
}

#[test]
fn json_report_empty_lists() {
    let doc = JsonDocument {
        title: String::new(),
        planar: false,
        max_abs_displacement: "0".to_string(),
        nodes: vec![],
        elements: vec![],
    };
    assert_eq!(
        json_report(&doc),
        "{\n  \"title\": \"\",\n  \"planar\": false,\n  \"maxAbsDisplacement\": 0,\n  \"nodes\": [\n  ],\n  \"elements\": [\n  ]\n}\n"
    );
}

#[test]
fn reaction_rows_match_support_count() {
    let m = Model::parse("t\n1,3\n1,0,0,0,0,0,0,0,0,0\n2,1,0,0,1,0,0,0,0,0\n3,0,0,1,2,0,0,0,0,0\n1,1,2,1,1\n").unwrap();
    let doc = TextDocument {
        title: "t".to_string(),
        planar: true,
        node_count: 3,
        element_count: 0,
        max_abs_displacement: "0".to_string(),
        nodes: m
            .nodes
            .iter()
            .map(|n| TextNode {
                id: n.id,
                fixed: n.fixed,
                displacement: ["d".to_string(), "d".to_string(), "d".to_string()],
                reaction: ["r".to_string(), "r".to_string(), "r".to_string()],
            })
            .collect(),
        elements: vec![],
    };
    let report = text_report(&doc);
    let rows = report.lines().filter(|l| l.ends_with("              r")).count();
    assert_eq!(rows, supports(&m));
    assert_eq!(rows, 2);
}

#[test]
fn json_strings_have_no_raw_controls() {
    let s = json_str("tab\there \"q\" \u{7}");
    assert!(s.chars().all(|c| (c as u32) >= 0x20));
    assert_eq!(s, "\"tab\\there \\\"q\\\" \\u0007\"");
}
