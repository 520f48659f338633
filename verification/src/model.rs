//! Truss model data structures and the input-file parser.
//!
//! The input format:
//!
//! ```text
//! <title>                                   # free-form title line
//! <numElements>,<numNodes>                  # counts
//! id, fixX, fixY, fixZ, x, y, z, Fx, Fy, Fz # one line per node
//! ...
//! id, nodeA, nodeB, E, A                    # one line per element
//! ...
//! ```
//!
//! Blank lines and `#` comments are ignored, fields may be separated by
//! commas and/or whitespace, and elements reference nodes by their id.
//!
//! Real-valued fields (coordinates, loads, `E`, `A`) are kept as the text of
//! a floating-point literal: the parser checks their syntax, the numeric work
//! on them happens where floating point is available.
use std::collections::HashMap;
use vstd::prelude::*;

use crate::numbers::{
    int_text, is_float_literal, is_float_text, nat_text, parse_signed, parse_unsigned,
    push_i64, push_usize, signed_in_range, signed_value, unsigned_in_range, unsigned_value,
};
pub use crate::text::{strip_comment, tokenize};
use crate::text::{
    chars_of, is_blank, join_fields, lemma_join_push, lemma_text_push, lines, push_str,
    split_lines, strip_comment_spec, text_of_lines, tokens, trim,
    trim_str, views,
};

verus! {

broadcast use vstd::std_specs::hash::group_hash_axioms;

/// A single truss joint (node).
#[derive(Clone, Debug)]
pub struct Node {
    /// User-facing id as written in the input file.
    pub id: i64,
    /// Constraint flags per axis: `true` means the DOF is fixed (a support).
    pub fixed: [bool; 3],
    /// Coordinates `[x, y, z]`, as floating-point literals.
    pub coord: [String; 3],
    /// Applied nodal load `[Fx, Fy, Fz]`, as floating-point literals.
    pub force: [String; 3],
}

/// A two-node axial truss member.
#[derive(Clone, Debug)]
pub struct Element {
    pub id: i64,
    /// Internal node indices (0-based into [`Model::nodes`]).
    pub nodes: [usize; 2],
    /// Young's modulus `E`, as a floating-point literal.
    pub e: String,
    /// Cross-sectional area `A`, as a floating-point literal.
    pub area: String,
}

/// A complete truss model.
#[derive(Clone, Debug)]
pub struct Model {
    pub title: String,
    pub nodes: Vec<Node>,
    pub elements: Vec<Element>,
}

/// A parse/validation error with a human-readable, English message.
#[derive(Debug)]
pub struct ModelError(pub String);

pub struct NodeV {
    pub id: i64,
    pub fixed: Seq<bool>,
    pub coord: Seq<Seq<char>>,
    pub force: Seq<Seq<char>>,
}

pub struct ElementV {
    pub id: i64,
    pub nodes: Seq<usize>,
    pub e: Seq<char>,
    pub area: Seq<char>,
}

pub struct ModelV {
    pub title: Seq<char>,
    pub nodes: Seq<NodeV>,
    pub elements: Seq<ElementV>,
}

impl View for Node {
    type V = NodeV;

    open spec fn view(&self) -> NodeV {
        NodeV { id: self.id, fixed: self.fixed@, coord: views(self.coord@), force: views(self.force@) }
    }
}

impl View for Element {
    type V = ElementV;

    open spec fn view(&self) -> ElementV {
        ElementV { id: self.id, nodes: self.nodes@, e: self.e@, area: self.area@ }
    }
}

pub open spec fn node_views(v: Seq<Node>) -> Seq<NodeV> {
    v.map_values(|n: Node| n@)
}

pub open spec fn element_views(v: Seq<Element>) -> Seq<ElementV> {
    v.map_values(|e: Element| e@)
}

impl View for Model {
    type V = ModelV;

    open spec fn view(&self) -> ModelV {
        ModelV {
            title: self.title@,
            nodes: node_views(self.nodes@),
            elements: element_views(self.elements@),
        }
    }
}

impl View for ModelError {
    type V = Seq<char>;

    open spec fn view(&self) -> Seq<char> {
        self.0@
    }
}

impl ModelError {
    /// The message of this error.
    pub fn message(&self) -> (s: String)
        ensures
            s@ == self@,
    {
        self.0.clone()
    }
}

/// A result with its error taken by its message.
pub open spec fn res<T>(r: Result<T, ModelError>) -> Result<T, Seq<char>> {
    match r {
        Ok(v) => Ok(v),
        Err(e) => Err(e@),
    }
}

/// A result with its value and its error taken by their views.
pub open spec fn res_view<T: View>(r: Result<T, ModelError>) -> Result<T::V, Seq<char>> {
    match r {
        Ok(v) => Ok(v@),
        Err(e) => Err(e@),
    }
}

// ---------------------------------------------------------------------------
// Field parsing
// ---------------------------------------------------------------------------

/// `invalid <what>: '<s>'`
pub open spec fn invalid_msg(what: Seq<char>, s: Seq<char>) -> Seq<char> {
    "invalid "@ + what + ": '"@ + s + "'"@
}

pub open spec fn spec_parse_usize(s: Seq<char>, what: Seq<char>) -> Result<usize, Seq<char>> {
    if unsigned_in_range(trim(s), usize::MAX as int) {
        Ok(unsigned_value(trim(s)).unwrap() as usize)
    } else {
        Err(invalid_msg(what, s))
    }
}

pub open spec fn spec_parse_i64(s: Seq<char>, what: Seq<char>) -> Result<i64, Seq<char>> {
    if signed_in_range(trim(s), i64::MIN as int, i64::MAX as int) {
        Ok(signed_value(trim(s)).unwrap() as i64)
    } else {
        Err(invalid_msg(what, s))
    }
}

/// A real-valued field: its trimmed text when that is a floating-point literal.
pub open spec fn spec_parse_f64(s: Seq<char>, what: Seq<char>) -> Result<Seq<char>, Seq<char>> {
    if is_float_literal(trim(s)) {
        Ok(trim(s))
    } else {
        Err(invalid_msg(what, s))
    }
}

fn invalid(s: &str, what: &str) -> (e: ModelError)
    ensures
        e@ == invalid_msg(what@, s@),
{
    let mut m = String::new();
    push_str(&mut m, "invalid ");
    push_str(&mut m, what);
    push_str(&mut m, ": '");
    push_str(&mut m, s);
    push_str(&mut m, "'");
    assert(m@ =~= invalid_msg(what@, s@));
    ModelError(m)
}

/// Parse a non-negative integer field (surrounding whitespace allowed).
pub fn parse_usize(s: &str, what: &str) -> (r: Result<usize, ModelError>)
    ensures
        res(r) == spec_parse_usize(s@, what@),
{
    match parse_unsigned(s) {
        Some(v) => {
            if v <= usize::MAX as u64 {
                Ok(v as usize)
            } else {
                Err(invalid(s, what))
            }
        },
        None => Err(invalid(s, what)),
    }
}

/// Parse a signed integer field (surrounding whitespace allowed).
pub fn parse_i64(s: &str, what: &str) -> (r: Result<i64, ModelError>)
    ensures
        res(r) == spec_parse_i64(s@, what@),
{
    match parse_signed(s) {
        Some(v) => Ok(v),
        None => Err(invalid(s, what)),
    }
}

/// Check a real-valued field and return its trimmed text.
pub fn parse_f64(s: &str, what: &str) -> (r: Result<String, ModelError>)
    ensures
        res_view(r) == spec_parse_f64(s@, what@),
{
    if is_float_text(s) {
        let t = trim_str(s);
        Ok(t.to_owned())
    } else {
        Err(invalid(s, what))
    }
}

// ---------------------------------------------------------------------------
// Node and element lines
// ---------------------------------------------------------------------------

pub open spec fn node_count_msg(n: nat, line: Seq<char>) -> Seq<char> {
    "node line needs 10 values (id, fixX, fixY, fixZ, x, y, z, Fx, Fy, Fz), got "@ + nat_text(n)
        + ": '"@ + trim(line) + "'"@
}

/// A node line `id, fixX, fixY, fixZ, x, y, z, Fx, Fy, Fz`: the first field
/// that does not parse is reported; a fix flag is set when its integer is not 0.
pub open spec fn spec_parse_node(line: Seq<char>) -> Result<NodeV, Seq<char>> {
    let t = tokens(line);
    if t.len() < 10 {
        Err(node_count_msg(t.len(), line))
    } else {
        let id = spec_parse_i64(t[0], "node id"@);
        let fx = spec_parse_i64(t[1], "fixX"@);
        let fy = spec_parse_i64(t[2], "fixY"@);
        let fz = spec_parse_i64(t[3], "fixZ"@);
        let x = spec_parse_f64(t[4], "x"@);
        let y = spec_parse_f64(t[5], "y"@);
        let z = spec_parse_f64(t[6], "z"@);
        let px = spec_parse_f64(t[7], "Fx"@);
        let py = spec_parse_f64(t[8], "Fy"@);
        let pz = spec_parse_f64(t[9], "Fz"@);
        if id is Err {
            Err(id->Err_0)
        } else if fx is Err {
            Err(fx->Err_0)
        } else if fy is Err {
            Err(fy->Err_0)
        } else if fz is Err {
            Err(fz->Err_0)
        } else if x is Err {
            Err(x->Err_0)
        } else if y is Err {
            Err(y->Err_0)
        } else if z is Err {
            Err(z->Err_0)
        } else if px is Err {
            Err(px->Err_0)
        } else if py is Err {
            Err(py->Err_0)
        } else if pz is Err {
            Err(pz->Err_0)
        } else {
            Ok(
                NodeV {
                    id: id->Ok_0,
                    fixed: seq![fx->Ok_0 != 0, fy->Ok_0 != 0, fz->Ok_0 != 0],
                    coord: seq![x->Ok_0, y->Ok_0, z->Ok_0],
                    force: seq![px->Ok_0, py->Ok_0, pz->Ok_0],
                },
            )
        }
    }
}

pub open spec fn element_count_msg(n: nat, line: Seq<char>) -> Seq<char> {
    "element line needs 5 values (id, nodeA, nodeB, E, A), got "@ + nat_text(n) + ": '"@ + trim(
        line,
    ) + "'"@
}

pub open spec fn unknown_node_msg(id: i64, nid: i64) -> Seq<char> {
    "element "@ + int_text(id as int) + " references unknown node id "@ + int_text(nid as int)
}

/// An element line `id, nodeA, nodeB, E, A`, whose node ids are resolved
/// through `ids` (node id to node index).
pub open spec fn spec_parse_element(line: Seq<char>, ids: Map<i64, usize>) -> Result<
    ElementV,
    Seq<char>,
> {
    let t = tokens(line);
    if t.len() < 5 {
        Err(element_count_msg(t.len(), line))
    } else {
        let id = spec_parse_i64(t[0], "element id"@);
        let a = spec_parse_i64(t[1], "element nodeA"@);
        let b = spec_parse_i64(t[2], "element nodeB"@);
        let e = spec_parse_f64(t[3], "elastic modulus E"@);
        let area = spec_parse_f64(t[4], "area A"@);
        if id is Err {
            Err(id->Err_0)
        } else if a is Err {
            Err(a->Err_0)
        } else if b is Err {
            Err(b->Err_0)
        } else if e is Err {
            Err(e->Err_0)
        } else if area is Err {
            Err(area->Err_0)
        } else if !ids.contains_key(a->Ok_0) {
            Err(unknown_node_msg(id->Ok_0, a->Ok_0))
        } else if !ids.contains_key(b->Ok_0) {
            Err(unknown_node_msg(id->Ok_0, b->Ok_0))
        } else {
            Ok(
                ElementV {
                    id: id->Ok_0,
                    nodes: seq![ids[a->Ok_0], ids[b->Ok_0]],
                    e: e->Ok_0,
                    area: area->Ok_0,
                },
            )
        }
    }
}

fn count_error(prefix: &str, n: usize, line: &str) -> (e: ModelError)
    ensures
        e@ == prefix@ + nat_text(n as nat) + ": '"@ + trim(line@) + "'"@,
{
    let mut m = String::new();
    push_str(&mut m, prefix);
    push_usize(&mut m, n);
    push_str(&mut m, ": '");
    push_str(&mut m, trim_str(line));
    push_str(&mut m, "'");
    ModelError(m)
}

/// Parse one node line.
pub fn parse_node(line: &str) -> (r: Result<Node, ModelError>)
    ensures
        res_view(r) == spec_parse_node(line@),
{
    let t = tokenize(line);
    let ghost tv = tokens(line@);
    if t.len() < 10 {
        let e = count_error(
            "node line needs 10 values (id, fixX, fixY, fixZ, x, y, z, Fx, Fy, Fz), got ",
            t.len(),
            line,
        );
        assert(e@ =~= node_count_msg(tv.len(), line@));
        return Err(e);
    }
    assert(t@[0]@ == tv[0] && t@[1]@ == tv[1] && t@[2]@ == tv[2] && t@[3]@ == tv[3]);
    assert(t@[4]@ == tv[4] && t@[5]@ == tv[5] && t@[6]@ == tv[6] && t@[7]@ == tv[7]);
    assert(t@[8]@ == tv[8] && t@[9]@ == tv[9]);
    let id = match parse_i64(t[0].as_str(), "node id") {
        Ok(v) => v,
        Err(e) => return Err(e),
    };
    let fx = match parse_i64(t[1].as_str(), "fixX") {
        Ok(v) => v,
        Err(e) => return Err(e),
    };
    let fy = match parse_i64(t[2].as_str(), "fixY") {
        Ok(v) => v,
        Err(e) => return Err(e),
    };
    let fz = match parse_i64(t[3].as_str(), "fixZ") {
        Ok(v) => v,
        Err(e) => return Err(e),
    };
    let x = match parse_f64(t[4].as_str(), "x") {
        Ok(v) => v,
        Err(e) => return Err(e),
    };
    let y = match parse_f64(t[5].as_str(), "y") {
        Ok(v) => v,
        Err(e) => return Err(e),
    };
    let z = match parse_f64(t[6].as_str(), "z") {
        Ok(v) => v,
        Err(e) => return Err(e),
    };
    let px = match parse_f64(t[7].as_str(), "Fx") {
        Ok(v) => v,
        Err(e) => return Err(e),
    };
    let py = match parse_f64(t[8].as_str(), "Fy") {
        Ok(v) => v,
        Err(e) => return Err(e),
    };
    let pz = match parse_f64(t[9].as_str(), "Fz") {
        Ok(v) => v,
        Err(e) => return Err(e),
    };
    let node = Node { id, fixed: [fx != 0, fy != 0, fz != 0], coord: [x, y, z], force: [px, py, pz] };
    assert(node.fixed@ =~= seq![fx != 0, fy != 0, fz != 0]);
    assert(views(node.coord@) =~= seq![node.coord@[0]@, node.coord@[1]@, node.coord@[2]@]);
    assert(views(node.force@) =~= seq![node.force@[0]@, node.force@[1]@, node.force@[2]@]);
    Ok(node)
}

fn unknown_node(id: i64, nid: i64) -> (e: ModelError)
    ensures
        e@ == unknown_node_msg(id, nid),
{
    let mut m = String::new();
    push_str(&mut m, "element ");
    push_i64(&mut m, id);
    push_str(&mut m, " references unknown node id ");
    push_i64(&mut m, nid);
    ModelError(m)
}

/// Parse one element line, resolving node ids through `id_to_index`.
pub fn parse_element(line: &str, id_to_index: &HashMap<i64, usize>) -> (r: Result<
    Element,
    ModelError,
>)
    ensures
        res_view(r) == spec_parse_element(line@, id_to_index@),
{
    let t = tokenize(line);
    let ghost tv = tokens(line@);
    if t.len() < 5 {
        let e = count_error(
            "element line needs 5 values (id, nodeA, nodeB, E, A), got ",
            t.len(),
            line,
        );
        assert(e@ =~= element_count_msg(tv.len(), line@));
        return Err(e);
    }
    assert(t@[0]@ == tv[0] && t@[1]@ == tv[1] && t@[2]@ == tv[2] && t@[3]@ == tv[3]);
    assert(t@[4]@ == tv[4]);
    let id = match parse_i64(t[0].as_str(), "element id") {
        Ok(v) => v,
        Err(e) => return Err(e),
    };
    let node_a_id = match parse_i64(t[1].as_str(), "element nodeA") {
        Ok(v) => v,
        Err(e) => return Err(e),
    };
    let node_b_id = match parse_i64(t[2].as_str(), "element nodeB") {
        Ok(v) => v,
        Err(e) => return Err(e),
    };
    let e = match parse_f64(t[3].as_str(), "elastic modulus E") {
        Ok(v) => v,
        Err(e) => return Err(e),
    };
    let area = match parse_f64(t[4].as_str(), "area A") {
        Ok(v) => v,
        Err(e) => return Err(e),
    };
    let a = match id_to_index.get(&node_a_id) {
        Some(i) => *i,
        None => return Err(unknown_node(id, node_a_id)),
    };
    let b = match id_to_index.get(&node_b_id) {
        Some(i) => *i,
        None => return Err(unknown_node(id, node_b_id)),
    };
    let el = Element { id, nodes: [a, b], e, area };
    assert(el.nodes@ =~= seq![a, b]);
    Ok(el)
}

// ---------------------------------------------------------------------------
// Whole input files
// ---------------------------------------------------------------------------

pub open spec fn node_ids(nodes: Seq<NodeV>) -> Seq<i64> {
    nodes.map_values(|n: NodeV| n.id)
}

/// Node id to node index, for the nodes with ids `ids` (a later index wins).
pub open spec fn id_map(ids: Seq<i64>) -> Map<i64, usize>
    decreases ids.len(),
{
    if ids.len() == 0 {
        Map::empty()
    } else {
        id_map(ids.drop_last()).insert(ids.last(), (ids.len() - 1) as usize)
    }
}

/// Index of the first id that occurs earlier in `ids`.
pub open spec fn first_repeat(ids: Seq<i64>) -> Option<int>
    decreases ids.len(),
{
    if ids.len() == 0 {
        None
    } else {
        match first_repeat(ids.drop_last()) {
            Some(i) => Some(i),
            None => if ids.drop_last().contains(ids.last()) {
                Some(ids.len() - 1)
            } else {
                None
            },
        }
    }
}

/// The lines after the title with comments removed, blank ones dropped.
pub open spec fn data_lines(ls: Seq<Seq<char>>) -> Seq<Seq<char>>
    decreases ls.len(),
{
    if ls.len() == 0 {
        seq![]
    } else {
        let rest = data_lines(ls.drop_last());
        let l = strip_comment_spec(ls.last());
        if is_blank(l) {
            rest
        } else {
            rest.push(l)
        }
    }
}

/// `expected <total> <kind> lines but only found <found>`
pub open spec fn missing_msg(kind: Seq<char>, total: nat, found: nat) -> Seq<char> {
    "expected "@ + nat_text(total) + " "@ + kind + " lines but only found "@ + nat_text(found)
}

/// The first `k` of `total` node lines, which start `body`.
pub open spec fn parse_nodes(body: Seq<Seq<char>>, total: nat, k: nat) -> Result<
    Seq<NodeV>,
    Seq<char>,
>
    decreases k,
{
    if k == 0 {
        Ok(seq![])
    } else {
        match parse_nodes(body, total, (k - 1) as nat) {
            Err(m) => Err(m),
            Ok(ns) => if k - 1 >= body.len() {
                Err(missing_msg("node"@, total, (k - 1) as nat))
            } else {
                match spec_parse_node(body[k - 1]) {
                    Err(m) => Err(m),
                    Ok(n) => Ok(ns.push(n)),
                }
            },
        }
    }
}

/// The first `k` of `total` element lines, which start at `body[offset]`.
pub open spec fn parse_elements(
    body: Seq<Seq<char>>,
    offset: nat,
    total: nat,
    k: nat,
    ids: Map<i64, usize>,
) -> Result<Seq<ElementV>, Seq<char>>
    decreases k,
{
    if k == 0 {
        Ok(seq![])
    } else {
        match parse_elements(body, offset, total, (k - 1) as nat, ids) {
            Err(m) => Err(m),
            Ok(es) => if offset + k - 1 >= body.len() {
                Err(missing_msg("element"@, total, (k - 1) as nat))
            } else {
                match spec_parse_element(body[offset + k - 1], ids) {
                    Err(m) => Err(m),
                    Ok(e) => Ok(es.push(e)),
                }
            },
        }
    }
}

pub open spec fn empty_input_msg() -> Seq<char> {
    "input is empty: expected a title line"@
}

pub open spec fn missing_counts_msg() -> Seq<char> {
    "missing counts line (expected '<elements>,<nodes>')"@
}

pub open spec fn counts_msg(line: Seq<char>) -> Seq<char> {
    "counts line must have 2 values '<elements>,<nodes>', got: '"@ + trim(line) + "'"@
}

pub open spec fn no_nodes_msg() -> Seq<char> {
    "model has no nodes"@
}

pub open spec fn no_elements_msg() -> Seq<char> {
    "model has no elements"@
}

pub open spec fn duplicate_msg(id: i64) -> Seq<char> {
    "duplicate node id "@ + int_text(id as int)
}

/// The model an input text describes, or the message of the first problem in it.
pub open spec fn spec_from_str(text: Seq<char>) -> Result<ModelV, Seq<char>> {
    let ls = lines(text);
    if ls.len() == 0 || is_blank(ls[0]) {
        Err(empty_input_msg())
    } else {
        let title = trim(ls[0]);
        let data = data_lines(ls.drop_first());
        if data.len() == 0 {
            Err(missing_counts_msg())
        } else {
            let ct = tokens(data[0]);
            if ct.len() < 2 {
                Err(counts_msg(data[0]))
            } else {
                let ne = spec_parse_usize(ct[0], "element count"@);
                let nn = spec_parse_usize(ct[1], "node count"@);
                if ne is Err {
                    Err(ne->Err_0)
                } else if nn is Err {
                    Err(nn->Err_0)
                } else {
                    let body = data.drop_first();
                    let ne = ne->Ok_0 as nat;
                    let nn = nn->Ok_0 as nat;
                    match parse_nodes(body, nn, nn) {
                        Err(m) => Err(m),
                        Ok(nodes) => {
                            let ids = node_ids(nodes);
                            match first_repeat(ids) {
                                Some(i) => Err(duplicate_msg(ids[i])),
                                None => match parse_elements(body, nn, ne, ne, id_map(ids)) {
                                    Err(m) => Err(m),
                                    Ok(elements) => if nodes.len() == 0 {
                                        Err(no_nodes_msg())
                                    } else if elements.len() == 0 {
                                        Err(no_elements_msg())
                                    } else {
                                        Ok(ModelV { title, nodes, elements })
                                    },
                                },
                            }
                        },
                    }
                }
            }
        }
    }
}

pub proof fn lemma_parse_nodes_err(body: Seq<Seq<char>>, total: nat, k: nat, k2: nat)
    requires
        k <= k2,
        parse_nodes(body, total, k) is Err,
    ensures
        parse_nodes(body, total, k2) == parse_nodes(body, total, k),
    decreases k2,
{
    if k < k2 {
        lemma_parse_nodes_err(body, total, k, (k2 - 1) as nat);
    }
}

pub proof fn lemma_parse_elements_err(
    body: Seq<Seq<char>>,
    offset: nat,
    total: nat,
    k: nat,
    k2: nat,
    ids: Map<i64, usize>,
)
    requires
        k <= k2,
        parse_elements(body, offset, total, k, ids) is Err,
    ensures
        parse_elements(body, offset, total, k2, ids) == parse_elements(body, offset, total, k, ids),
    decreases k2,
{
    if k < k2 {
        lemma_parse_elements_err(body, offset, total, k, (k2 - 1) as nat, ids);
    }
}

pub proof fn lemma_id_map_keys(ids: Seq<i64>, k: i64)
    requires
        ids.len() <= usize::MAX,
    ensures
        id_map(ids).contains_key(k) <==> ids.contains(k),
        id_map(ids).contains_key(k) ==> id_map(ids)[k] < ids.len() && ids[id_map(ids)[k] as int]
            == k,
    decreases ids.len(),
{
    if ids.len() > 0 {
        let pre = ids.drop_last();
        lemma_id_map_keys(pre, k);
        if k == ids.last() {
            assert(id_map(ids)[k] == ids.len() - 1);
            assert(ids.contains(k)) by {
                assert(ids[ids.len() - 1] == k);
            }
        } else {
            assert(id_map(ids).contains_key(k) == id_map(pre).contains_key(k));
            if id_map(pre).contains_key(k) {
                let j = id_map(pre)[k];
                assert(id_map(ids)[k] == j);
                assert(ids[j as int] == pre[j as int]);
                assert(ids.contains(k));
            }
            if ids.contains(k) {
                let j = choose|j: int| 0 <= j < ids.len() && ids[j] == k;
                assert(j < ids.len() - 1);
                assert(pre[j] == k);
            }
        }
    }
}

pub proof fn lemma_first_repeat_prefix(ids: Seq<i64>, k: int)
    requires
        0 <= k <= ids.len(),
        first_repeat(ids.take(k)) is Some,
    ensures
        first_repeat(ids) == first_repeat(ids.take(k)),
    decreases ids.len(),
{
    if k < ids.len() {
        assert(ids.drop_last().take(k) =~= ids.take(k));
        lemma_first_repeat_prefix(ids.drop_last(), k);
    } else {
        assert(ids.take(k) =~= ids);
    }
}

fn missing_lines(kind: &str, total: usize, found: usize) -> (e: ModelError)
    ensures
        e@ == missing_msg(kind@, total as nat, found as nat),
{
    let mut m = String::new();
    push_str(&mut m, "expected ");
    push_usize(&mut m, total);
    push_str(&mut m, " ");
    push_str(&mut m, kind);
    push_str(&mut m, " lines but only found ");
    push_usize(&mut m, found);
    assert(m@ =~= missing_msg(kind@, total as nat, found as nat));
    ModelError(m)
}

fn error_of(msg: &str) -> (e: ModelError)
    ensures
        e@ == msg@,
{
    ModelError(msg.to_owned())
}

/// The title and the data lines of an input text, as `spec_from_str` reads them.
pub open spec fn spec_title_and_data(text: Seq<char>) -> Result<
    (Seq<char>, Seq<Seq<char>>),
    Seq<char>,
> {
    let ls = lines(text);
    if ls.len() == 0 || is_blank(ls[0]) {
        Err(empty_input_msg())
    } else {
        Ok((trim(ls[0]), data_lines(ls.drop_first())))
    }
}

/// Node lines `body[0..total]`.
fn parse_node_lines(data: &Vec<String>, total: usize) -> (r: Result<Vec<Node>, ModelError>)
    requires
        data.len() > 0,
    ensures
        match r {
            Ok(v) => parse_nodes(views(data@).drop_first(), total as nat, total as nat) == Ok::<
                Seq<NodeV>,
                Seq<char>,
            >(node_views(v@)),
            Err(e) => parse_nodes(views(data@).drop_first(), total as nat, total as nat) == Err::<
                Seq<NodeV>,
                Seq<char>,
            >(e@),
        },
{
    let ghost body = views(data@).drop_first();
    let mut nodes: Vec<Node> = Vec::new();
    let mut i: usize = 0;
    assert(node_views(nodes@) =~= Seq::<NodeV>::empty());
    while i < total
        invariant
            i <= total,
            data.len() > 0,
            body == views(data@).drop_first(),
            parse_nodes(body, total as nat, i as nat) == Ok::<Seq<NodeV>, Seq<char>>(
                node_views(nodes@),
            ),
        decreases total - i,
    {
        if i + 1 >= data.len() {
            let e = missing_lines("node", total, i);
            proof {
                lemma_parse_nodes_err(body, total as nat, (i + 1) as nat, total as nat);
            }
            return Err(e);
        }
        assert(data@[i + 1]@ == body[i as int]);
        let node = match parse_node(data[i + 1].as_str()) {
            Ok(n) => n,
            Err(e) => {
                proof {
                    lemma_parse_nodes_err(body, total as nat, (i + 1) as nat, total as nat);
                }
                return Err(e);
            },
        };
        let ghost before = nodes@;
        nodes.push(node);
        assert(node_views(nodes@) =~= node_views(before).push(node@));
        i += 1;
    }
    Ok(nodes)
}

/// Node id to node index, or the first duplicate id.
fn index_nodes(nodes: &Vec<Node>) -> (r: Result<HashMap<i64, usize>, ModelError>)
    ensures
        match r {
            Ok(m) => first_repeat(node_ids(node_views(nodes@))) is None && m@ == id_map(
                node_ids(node_views(nodes@)),
            ),
            Err(e) => first_repeat(node_ids(node_views(nodes@))) is Some && e@ == duplicate_msg(
                node_ids(node_views(nodes@))[first_repeat(node_ids(node_views(nodes@)))->0],
            ),
        },
{
    let ghost ids = node_ids(node_views(nodes@));
    let mut id_to_index: HashMap<i64, usize> = HashMap::new();
    let mut idx: usize = 0;
    assert(ids.take(0) =~= Seq::<i64>::empty());
    while idx < nodes.len()
        invariant
            idx <= nodes.len(),
            ids == node_ids(node_views(nodes@)),
            id_to_index@ == id_map(ids.take(idx as int)),
            first_repeat(ids.take(idx as int)) is None,
        decreases nodes.len() - idx,
    {
        let id = nodes[idx].id;
        let ghost pre = ids.take(idx as int);
        let ghost now = ids.take(idx + 1);
        assert(now.drop_last() =~= pre);
        assert(now.last() == id);
        proof {
            lemma_id_map_keys(pre, id);
        }
        if id_to_index.insert(id, idx).is_some() {
            proof {
                lemma_first_repeat_prefix(ids, idx + 1);
            }
            let mut m = String::new();
            push_str(&mut m, "duplicate node id ");
            push_i64(&mut m, id);
            return Err(ModelError(m));
        }
        idx += 1;
    }
    assert(ids.take(nodes.len() as int) =~= ids);
    Ok(id_to_index)
}

/// Element lines `body[offset..offset + total]`.
fn parse_element_lines(
    data: &Vec<String>,
    offset: usize,
    total: usize,
    id_to_index: &HashMap<i64, usize>,
) -> (r: Result<Vec<Element>, ModelError>)
    requires
        data.len() > 0,
    ensures
        match r {
            Ok(v) => parse_elements(
                views(data@).drop_first(),
                offset as nat,
                total as nat,
                total as nat,
                id_to_index@,
            ) == Ok::<Seq<ElementV>, Seq<char>>(element_views(v@)),
            Err(e) => parse_elements(
                views(data@).drop_first(),
                offset as nat,
                total as nat,
                total as nat,
                id_to_index@,
            ) == Err::<Seq<ElementV>, Seq<char>>(e@),
        },
{
    let ghost body = views(data@).drop_first();
    let mut elements: Vec<Element> = Vec::new();
    let mut i: usize = 0;
    assert(element_views(elements@) =~= Seq::<ElementV>::empty());
    while i < total
        invariant
            i <= total,
            data.len() > 0,
            body == views(data@).drop_first(),
            parse_elements(body, offset as nat, total as nat, i as nat, id_to_index@) == Ok::<
                Seq<ElementV>,
                Seq<char>,
            >(element_views(elements@)),
        decreases total - i,
    {
        if offset as u128 + i as u128 + 1 >= data.len() as u128 {
            let e = missing_lines("element", total, i);
            proof {
                lemma_parse_elements_err(
                    body,
                    offset as nat,
                    total as nat,
                    (i + 1) as nat,
                    total as nat,
                    id_to_index@,
                );
            }
            return Err(e);
        }
        let at = offset + i + 1;
        assert(data@[at as int]@ == body[offset + i]);
        let el = match parse_element(data[at].as_str(), id_to_index) {
            Ok(el) => el,
            Err(e) => {
                proof {
                    lemma_parse_elements_err(
                        body,
                        offset as nat,
                        total as nat,
                        (i + 1) as nat,
                        total as nat,
                        id_to_index@,
                    );
                }
                return Err(e);
            },
        };
        let ghost before = elements@;
        elements.push(el);
        assert(element_views(elements@) =~= element_views(before).push(el@));
        i += 1;
    }
    Ok(elements)
}

/// The title line and the data lines of an input text.
fn title_and_data(text: &str) -> (r: Result<(String, Vec<String>), ModelError>)
    ensures
        match r {
            Ok((t, d)) => spec_title_and_data(text@) == Ok::<
                (Seq<char>, Seq<Seq<char>>),
                Seq<char>,
            >((t@, views(d@))),
            Err(e) => spec_title_and_data(text@) == Err::<(Seq<char>, Seq<Seq<char>>), Seq<char>>(
                e@,
            ),
        },
{
    let chars = chars_of(text);
    let raw = split_lines(&chars);
    let ghost ls = lines(text@);
    if raw.len() == 0 {
        return Err(error_of("input is empty: expected a title line"));
    }
    assert(raw@[0]@ == ls[0]);
    let title_str = trim_str(raw[0].as_str());
    if title_str.is_empty() {
        return Err(error_of("input is empty: expected a title line"));
    }
    let title = title_str.to_owned();
    // Remaining data lines with comments/blanks stripped.
    let mut data: Vec<String> = Vec::new();
    let mut i: usize = 1;
    assert(ls.drop_first().take(0) =~= Seq::<Seq<char>>::empty());
    assert(views(data@) =~= Seq::<Seq<char>>::empty());
    while i < raw.len()
        invariant
            1 <= i <= raw.len(),
            views(raw@) == ls,
            views(data@) == data_lines(ls.drop_first().take(i - 1)),
        decreases raw.len() - i,
    {
        let ghost before = data@;
        assert(raw@[i as int]@ == ls[i as int]);
        let line = strip_comment(raw[i].as_str());
        let ghost pre = ls.drop_first().take(i - 1);
        let ghost now = ls.drop_first().take(i as int);
        assert(now.drop_last() =~= pre);
        assert(now.last() == ls[i as int]);
        if !trim_str(line).is_empty() {
            data.push(line.to_owned());
            proof {
                crate::text::lemma_views_push(before, data@.last());
            }
        }
        i += 1;
    }
    assert(ls.drop_first().take(raw.len() - 1) =~= ls.drop_first());
    Ok((title, data))
}

impl Model {
    /// Parse a model from the textual input format: the first step of
    /// reading a model, which [`Model::checked`] completes.
    ///
    /// A model without nodes or without elements is refused. The real-valued
    /// fields are checked for syntax only; the checks on the elements (distinct
    /// end nodes, and what the numeric checks find) are made by
    /// [`Model::checked`], once the numeric checks have been computed on the
    /// parsed values.
    pub fn parse(text: &str) -> (r: Result<Model, ModelError>)
        ensures
            res_view(r) == spec_from_str(text@),
    {
        let (title, data) = match title_and_data(text) {
            Ok(p) => p,
            Err(e) => return Err(e),
        };
        let ghost dv = views(data@);
        // Counts line: <numElements>,<numNodes>
        if data.len() == 0 {
            return Err(error_of("missing counts line (expected '<elements>,<nodes>')"));
        }
        assert(data@[0]@ == dv[0]);
        let count_tokens = tokenize(data[0].as_str());
        if count_tokens.len() < 2 {
            let mut m = String::new();
            push_str(&mut m, "counts line must have 2 values '<elements>,<nodes>', got: '");
            push_str(&mut m, trim_str(data[0].as_str()));
            push_str(&mut m, "'");
            assert(m@ =~= counts_msg(dv[0]));
            return Err(ModelError(m));
        }
        assert(count_tokens@[0]@ == tokens(dv[0])[0] && count_tokens@[1]@ == tokens(dv[0])[1]);
        let num_elements = match parse_usize(count_tokens[0].as_str(), "element count") {
            Ok(v) => v,
            Err(e) => return Err(e),
        };
        let num_nodes = match parse_usize(count_tokens[1].as_str(), "node count") {
            Ok(v) => v,
            Err(e) => return Err(e),
        };
        let nodes = match parse_node_lines(&data, num_nodes) {
            Ok(v) => v,
            Err(e) => return Err(e),
        };
        let id_to_index = match index_nodes(&nodes) {
            Ok(m) => m,
            Err(e) => return Err(e),
        };
        let elements = match parse_element_lines(&data, num_nodes, num_elements, &id_to_index) {
            Ok(v) => v,
            Err(e) => return Err(e),
        };
        if nodes.len() == 0 {
            return Err(error_of("model has no nodes"));
        }
        if elements.len() == 0 {
            return Err(error_of("model has no elements"));
        }
        Ok(Model { title, nodes, elements })
    }
}

// ---------------------------------------------------------------------------
// Sanity checks
// ---------------------------------------------------------------------------

/// What the checks on one element's real values found: its length is
/// (numerically) zero, its `E` is not positive, its `A` is not positive.
#[derive(Clone, Copy, Debug)]
pub struct MemberChecks {
    pub zero_length: bool,
    pub non_positive_modulus: bool,
    pub non_positive_area: bool,
}

/// The first problem with one element, in the order the checks are made.
pub open spec fn element_problem(e: ElementV, c: MemberChecks) -> Option<Seq<char>> {
    if e.nodes[0] == e.nodes[1] {
        Some("element "@ + int_text(e.id as int) + " connects a node to itself"@)
    } else if c.zero_length {
        Some("element "@ + int_text(e.id as int) + " has zero length (coincident nodes)"@)
    } else if c.non_positive_modulus {
        Some("element "@ + int_text(e.id as int) + " has non-positive elastic modulus E="@ + e.e)
    } else if c.non_positive_area {
        Some("element "@ + int_text(e.id as int) + " has non-positive area A="@ + e.area)
    } else {
        None
    }
}

/// The first problem among the first `k` elements.
pub open spec fn first_problem(es: Seq<ElementV>, cs: Seq<MemberChecks>, k: nat) -> Option<
    Seq<char>,
>
    decreases k,
{
    if k == 0 {
        None
    } else {
        match first_problem(es, cs, (k - 1) as nat) {
            Some(m) => Some(m),
            None => element_problem(es[k - 1], cs[k - 1]),
        }
    }
}

/// The outcome of the sanity checks on a model whose element checks are `cs`.
pub open spec fn spec_validate(m: ModelV, cs: Seq<MemberChecks>) -> Result<(), Seq<char>> {
    if m.nodes.len() == 0 {
        Err("model has no nodes"@)
    } else if m.elements.len() == 0 {
        Err("model has no elements"@)
    } else {
        match first_problem(m.elements, cs, m.elements.len()) {
            Some(msg) => Err(msg),
            None => Ok(()),
        }
    }
}

/// A model with the outcome of its sanity checks: the model itself when they pass.
pub open spec fn checked_model(m: ModelV, cs: Seq<MemberChecks>) -> Result<ModelV, Seq<char>> {
    match spec_validate(m, cs) {
        Ok(_) => Ok(m),
        Err(msg) => Err(msg),
    }
}

pub proof fn lemma_first_problem_some(es: Seq<ElementV>, cs: Seq<MemberChecks>, k: nat, k2: nat)
    requires
        k <= k2,
        first_problem(es, cs, k) is Some,
    ensures
        first_problem(es, cs, k2) == first_problem(es, cs, k),
    decreases k2,
{
    if k < k2 {
        lemma_first_problem_some(es, cs, k, (k2 - 1) as nat);
    }
}

fn element_error_plain(id: i64, what: &str) -> (e: ModelError)
    ensures
        e@ == "element "@ + int_text(id as int) + what@,
{
    let mut m = String::new();
    push_str(&mut m, "element ");
    push_i64(&mut m, id);
    push_str(&mut m, what);
    ModelError(m)
}

fn element_error(id: i64, what: &str, value: &str) -> (e: ModelError)
    ensures
        e@ == "element "@ + int_text(id as int) + what@ + value@,
{
    let mut m = String::new();
    push_str(&mut m, "element ");
    push_i64(&mut m, id);
    push_str(&mut m, what);
    push_str(&mut m, value);
    assert(m@ =~= "element "@ + int_text(id as int) + what@ + value@);
    ModelError(m)
}

impl Model {
    /// Total number of degrees of freedom (`3 * node_count`).
    pub fn dof_count(&self) -> (n: usize)
        requires
            self.nodes.len() * 3 <= usize::MAX,
        ensures
            n == self.nodes.len() * 3,
    {
        self.nodes.len() * 3
    }

    /// A parsed model once it has passed the sanity checks, or the first
    /// problem found: the last step of reading a model. `checks[i]` holds what
    /// the numeric checks found for element `i`.
    pub fn checked(self, checks: &Vec<MemberChecks>) -> (r: Result<Model, ModelError>)
        requires
            checks.len() == self.elements.len(),
        ensures
            res_view(r) == checked_model(self@, checks@),
    {
        match self.validate(checks) {
            Ok(()) => Ok(self),
            Err(e) => Err(e),
        }
    }

    /// Sanity checks that catch common modelling mistakes early; `checks[i]`
    /// holds what the numeric checks found for element `i`. A message that
    /// names `E` or `A` gives the literal text the model holds.
    pub fn validate(&self, checks: &Vec<MemberChecks>) -> (r: Result<(), ModelError>)
        requires
            checks.len() == self.elements.len(),
        ensures
            res(r) == spec_validate(self@, checks@),
    {
        if self.nodes.len() == 0 {
            return Err(error_of("model has no nodes"));
        }
        if self.elements.len() == 0 {
            return Err(error_of("model has no elements"));
        }
        let ghost es = self@.elements;
        let mut i: usize = 0;
        while i < self.elements.len()
            invariant
                i <= self.elements.len(),
                checks.len() == self.elements.len(),
                es == self@.elements,
                self.nodes.len() > 0,
                self.elements.len() > 0,
                first_problem(es, checks@, i as nat) is None,
            decreases self.elements.len() - i,
        {
            let e = &self.elements[i];
            let c = checks[i];
            assert(es[i as int] == e@);
            let ghost found = element_problem(e@, c);
            if e.nodes[0] == e.nodes[1] {
                let err = element_error_plain(e.id, " connects a node to itself");
                assert(err@ =~= found->0);
                proof {
                    lemma_first_problem_some(es, checks@, (i + 1) as nat, es.len());
                }
                return Err(err);
            }
            if c.zero_length {
                let err = element_error_plain(e.id, " has zero length (coincident nodes)");
                assert(err@ =~= found->0);
                proof {
                    lemma_first_problem_some(es, checks@, (i + 1) as nat, es.len());
                }
                return Err(err);
            }
            if c.non_positive_modulus {
                let err = element_error(
                    e.id,
                    " has non-positive elastic modulus E=",
                    e.e.as_str(),
                );
                proof {
                    lemma_first_problem_some(es, checks@, (i + 1) as nat, es.len());
                }
                return Err(err);
            }
            if c.non_positive_area {
                let err = element_error(e.id, " has non-positive area A=", e.area.as_str());
                proof {
                    lemma_first_problem_some(es, checks@, (i + 1) as nat, es.len());
                }
                return Err(err);
            }
            i += 1;
        }
        Ok(())
    }
}

// ---------------------------------------------------------------------------
// Writing the input format
// ---------------------------------------------------------------------------

/// A fix flag as the input format writes it.
pub open spec fn flag_text(b: bool) -> Seq<char> {
    if b {
        seq!['1']
    } else {
        seq!['0']
    }
}

pub open spec fn node_fields(n: NodeV) -> Seq<Seq<char>> {
    seq![
        int_text(n.id as int),
        flag_text(n.fixed[0]),
        flag_text(n.fixed[1]),
        flag_text(n.fixed[2]),
        n.coord[0],
        n.coord[1],
        n.coord[2],
        n.force[0],
        n.force[1],
        n.force[2],
    ]
}

pub open spec fn element_fields(e: ElementV, nodes: Seq<NodeV>) -> Seq<Seq<char>> {
    seq![
        int_text(e.id as int),
        int_text(nodes[e.nodes[0] as int].id as int),
        int_text(nodes[e.nodes[1] as int].id as int),
        e.e,
        e.area,
    ]
}

pub open spec fn node_header() -> Seq<char> {
    "# id, fixX, fixY, fixZ, x, y, z, Fx, Fy, Fz"@
}

pub open spec fn element_header() -> Seq<char> {
    "# id, nodeA, nodeB, E, A"@
}

pub open spec fn node_lines(nodes: Seq<NodeV>) -> Seq<Seq<char>> {
    nodes.map_values(|n: NodeV| join_fields(node_fields(n)))
}

pub open spec fn element_lines(es: Seq<ElementV>, nodes: Seq<NodeV>) -> Seq<Seq<char>> {
    es.map_values(|e: ElementV| join_fields(element_fields(e, nodes)))
}

/// The lines the input format writes for a model.
pub open spec fn input_lines(m: ModelV) -> Seq<Seq<char>> {
    seq![m.title, join_fields(seq![nat_text(m.elements.len()), nat_text(m.nodes.len())]), node_header()]
        + node_lines(m.nodes) + seq![element_header()] + element_lines(m.elements, m.nodes)
}

pub open spec fn spec_to_input_string(m: ModelV) -> Seq<char> {
    text_of_lines(input_lines(m))
}

/// Every element refers to nodes of the model.
pub open spec fn indices_valid(m: ModelV) -> bool {
    forall|i: int|
        0 <= i < m.elements.len() ==> #[trigger] m.elements[i].nodes[0] < m.nodes.len()
            && m.elements[i].nodes[1] < m.nodes.len()
}

fn push_flag(s: &mut String, b: bool)
    ensures
        final(s)@ == old(s)@ + flag_text(b),
{
    if b {
        crate::text::push_char(s, '1');
    } else {
        crate::text::push_char(s, '0');
    }
}

/// Appends `,` and a text field to a line holding the fields `fs`.
fn push_text_field(s: &mut String, f: &str, Ghost(fs): Ghost<Seq<Seq<char>>>)
    requires
        fs.len() >= 1,
        old(s)@ == join_fields(fs),
    ensures
        final(s)@ == join_fields(fs.push(f@)),
{
    crate::text::push_char(s, ',');
    push_str(s, f);
    proof {
        lemma_join_push(fs, f@);
    }
}

/// Appends `,` and a fix flag to a line holding the fields `fs`.
fn push_flag_field(s: &mut String, b: bool, Ghost(fs): Ghost<Seq<Seq<char>>>)
    requires
        fs.len() >= 1,
        old(s)@ == join_fields(fs),
    ensures
        final(s)@ == join_fields(fs.push(flag_text(b))),
{
    crate::text::push_char(s, ',');
    push_flag(s, b);
    proof {
        lemma_join_push(fs, flag_text(b));
    }
}

/// Appends `,` and an integer field to a line holding the fields `fs`.
fn push_int_field(s: &mut String, x: i64, Ghost(fs): Ghost<Seq<Seq<char>>>)
    requires
        fs.len() >= 1,
        old(s)@ == join_fields(fs),
    ensures
        final(s)@ == join_fields(fs.push(int_text(x as int))),
{
    crate::text::push_char(s, ',');
    push_i64(s, x);
    proof {
        lemma_join_push(fs, int_text(x as int));
    }
}

/// The input-format line of one node.
fn node_line(n: &Node) -> (s: String)
    ensures
        s@ == join_fields(node_fields(n@)),
{
    let ghost fs = node_fields(n@);
    let mut s = String::new();
    push_i64(&mut s, n.id);
    assert(s@ =~= join_fields(fs.take(1)));
    push_flag_field(&mut s, n.fixed[0], Ghost(fs.take(1)));
    assert(fs.take(1).push(fs[1]) =~= fs.take(2));
    push_flag_field(&mut s, n.fixed[1], Ghost(fs.take(2)));
    assert(fs.take(2).push(fs[2]) =~= fs.take(3));
    push_flag_field(&mut s, n.fixed[2], Ghost(fs.take(3)));
    assert(fs.take(3).push(fs[3]) =~= fs.take(4));
    push_text_field(&mut s, n.coord[0].as_str(), Ghost(fs.take(4)));
    assert(fs.take(4).push(fs[4]) =~= fs.take(5));
    push_text_field(&mut s, n.coord[1].as_str(), Ghost(fs.take(5)));
    assert(fs.take(5).push(fs[5]) =~= fs.take(6));
    push_text_field(&mut s, n.coord[2].as_str(), Ghost(fs.take(6)));
    assert(fs.take(6).push(fs[6]) =~= fs.take(7));
    push_text_field(&mut s, n.force[0].as_str(), Ghost(fs.take(7)));
    assert(fs.take(7).push(fs[7]) =~= fs.take(8));
    push_text_field(&mut s, n.force[1].as_str(), Ghost(fs.take(8)));
    assert(fs.take(8).push(fs[8]) =~= fs.take(9));
    push_text_field(&mut s, n.force[2].as_str(), Ghost(fs.take(9)));
    assert(fs.take(9).push(fs[9]) =~= fs);
    s
}

/// The input-format line of one element of a model with the given nodes.
fn element_line(e: &Element, nodes: &Vec<Node>) -> (s: String)
    requires
        e.nodes[0] < nodes.len(),
        e.nodes[1] < nodes.len(),
    ensures
        s@ == join_fields(element_fields(e@, node_views(nodes@))),
{
    let ghost fs = element_fields(e@, node_views(nodes@));
    let mut s = String::new();
    push_i64(&mut s, e.id);
    assert(s@ =~= join_fields(fs.take(1)));
    assert(nodes@[e.nodes[0] as int]@ == node_views(nodes@)[e.nodes[0] as int]);
    assert(nodes@[e.nodes[1] as int]@ == node_views(nodes@)[e.nodes[1] as int]);
    push_int_field(&mut s, nodes[e.nodes[0]].id, Ghost(fs.take(1)));
    assert(fs.take(1).push(fs[1]) =~= fs.take(2));
    push_int_field(&mut s, nodes[e.nodes[1]].id, Ghost(fs.take(2)));
    assert(fs.take(2).push(fs[2]) =~= fs.take(3));
    push_text_field(&mut s, e.e.as_str(), Ghost(fs.take(3)));
    assert(fs.take(3).push(fs[3]) =~= fs.take(4));
    push_text_field(&mut s, e.area.as_str(), Ghost(fs.take(4)));
    assert(fs.take(4).push(fs[4]) =~= fs);
    s
}

impl Model {
    /// Serialize the model back into the textual input format, so an
    /// in-memory model can be saved and re-loaded. Real values are written
    /// as the literal text the model holds (`72.0` stays `72.0`).
    pub fn to_input_string(&self) -> (s: String)
        requires
            indices_valid(self@),
        ensures
            s@ == spec_to_input_string(self@),
    {
        let ghost m = self@;
        let ghost all = input_lines(m);
        let mut s = String::new();
        let ghost mut done: Seq<Seq<char>> = seq![];
        push_str(&mut s, self.title.as_str());
        crate::text::push_char(&mut s, '\n');
        proof {
            lemma_text_push(done, m.title);
            done = done.push(m.title);
        }
        let mut counts = String::new();
        push_usize(&mut counts, self.elements.len());
        crate::text::push_char(&mut counts, ',');
        push_usize(&mut counts, self.nodes.len());
        proof {
            let c = seq![nat_text(m.elements.len()), nat_text(m.nodes.len())];
            assert(m.elements.len() == self.elements.len());
            assert(m.nodes.len() == self.nodes.len());
            assert(c.drop_last() =~= seq![nat_text(m.elements.len())]);
            assert(join_fields(c.drop_last()) == nat_text(m.elements.len()));
            assert(counts@ =~= join_fields(c));
        }
        push_str(&mut s, counts.as_str());
        crate::text::push_char(&mut s, '\n');
        proof {
            lemma_text_push(done, counts@);
            done = done.push(counts@);
        }
        push_str(&mut s, "# id, fixX, fixY, fixZ, x, y, z, Fx, Fy, Fz");
        crate::text::push_char(&mut s, '\n');
        proof {
            lemma_text_push(done, node_header());
            done = done.push(node_header());
            assert(done =~= all.take(3));
        }
        let mut i: usize = 0;
        while i < self.nodes.len()
            invariant
                i <= self.nodes.len(),
                m == self@,
                all == input_lines(m),
                done == all.take(3 + i),
                s@ == text_of_lines(done),
            decreases self.nodes.len() - i,
        {
            let line = node_line(&self.nodes[i]);
            assert(self.nodes@[i as int]@ == m.nodes[i as int]);
            push_str(&mut s, line.as_str());
            crate::text::push_char(&mut s, '\n');
            proof {
                lemma_text_push(done, line@);
                assert(all[3 + i] == line@);
                assert(done.push(line@) =~= all.take(3 + i + 1));
                done = done.push(line@);
            }
            i += 1;
        }
        push_str(&mut s, "# id, nodeA, nodeB, E, A");
        crate::text::push_char(&mut s, '\n');
        proof {
            lemma_text_push(done, element_header());
            assert(all[3 + m.nodes.len() as int] == element_header());
            assert(done.push(element_header()) =~= all.take(4 + m.nodes.len() as int));
            done = done.push(element_header());
        }
        let mut i: usize = 0;
        while i < self.elements.len()
            invariant
                i <= self.elements.len(),
                m == self@,
                indices_valid(m),
                all == input_lines(m),
                done == all.take(4 + m.nodes.len() as int + i),
                s@ == text_of_lines(done),
            decreases self.elements.len() - i,
        {
            assert(self.elements@[i as int]@ == m.elements[i as int]);
            assert(m.elements[i as int].nodes[0] < m.nodes.len());
            let line = element_line(&self.elements[i], &self.nodes);
            push_str(&mut s, line.as_str());
            crate::text::push_char(&mut s, '\n');
            proof {
                lemma_text_push(done, line@);
                assert(all[4 + m.nodes.len() as int + i] == line@);
                assert(done.push(line@) =~= all.take(4 + m.nodes.len() as int + i + 1));
                done = done.push(line@);
            }
            i += 1;
        }
        assert(done =~= all);
        s
    }
}

} // verus!
