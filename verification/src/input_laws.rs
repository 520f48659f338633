//! Laws of the input format: what the parser accepts is a well-formed model,
//! and a well-formed model written in the input format reads back as itself.
use vstd::prelude::*;

use crate::model::{
    checked_model, element_problem, first_problem, MemberChecks,
    data_lines, element_fields, element_header, element_lines, first_repeat, id_map, input_lines,
    lemma_id_map_keys, node_fields, node_header, node_ids, node_lines, parse_elements, parse_nodes,
    spec_from_str, spec_parse_element, spec_parse_f64, spec_parse_i64, spec_parse_node,
    spec_parse_usize, spec_to_input_string, flag_text, ElementV, ModelV, NodeV,
};
use crate::numbers::{
    digits_value, int_text, is_float_literal, lemma_float_literal_chars, lemma_int_text_chars,
    lemma_nat_text, lemma_signed_value_int_text, lemma_unsigned_value_nat_text, nat_text,
    number_chars, signed_value, unsigned_value,
};
use crate::text::{
    field_char, field_text, is_blank, is_ws, join_fields, text_of_lines, lemma_lines_no_newline, lemma_lines_text,
    lemma_not_blank, lemma_strip_comment_line, lemma_strip_comment_none, lemma_tokens_join,
    lemma_trim, lemma_trim_same, line_ok, lines, strip_comment_spec, tokens, trim,
};

verus! {

/// A node as the parser produces it: three flags, coordinates and loads,
/// each real value a floating-point literal.
pub open spec fn node_wf(n: NodeV) -> bool {
    &&& n.fixed.len() == 3
    &&& n.coord.len() == 3
    &&& n.force.len() == 3
    &&& forall|k: int| 0 <= k < 3 ==> is_float_literal(#[trigger] n.coord[k])
    &&& forall|k: int| 0 <= k < 3 ==> is_float_literal(#[trigger] n.force[k])
}

/// An element as the parser produces it for a model with `nn` nodes.
pub open spec fn element_wf(e: ElementV, nn: nat) -> bool {
    &&& e.nodes.len() == 2
    &&& e.nodes[0] < nn
    &&& e.nodes[1] < nn
    &&& is_float_literal(e.e)
    &&& is_float_literal(e.area)
}

/// A model as the parser produces it: a trimmed one-line title, at least one
/// node and one element, well-formed nodes with distinct ids, and elements
/// that refer to its nodes.
pub open spec fn model_wf(m: ModelV) -> bool {
    &&& m.nodes.len() > 0
    &&& m.elements.len() > 0
    &&& m.title.len() > 0
    &&& trim(m.title) == m.title
    &&& forall|i: int| 0 <= i < m.title.len() ==> m.title[i] != '\n'
    &&& m.nodes.len() <= usize::MAX
    &&& m.elements.len() <= usize::MAX
    &&& forall|i: int| 0 <= i < m.nodes.len() ==> node_wf(#[trigger] m.nodes[i])
    &&& forall|i: int| 0 <= i < m.elements.len() ==> element_wf(#[trigger] m.elements[i], m.nodes.len())
    &&& first_repeat(node_ids(m.nodes)) is None
}

// ---------------------------------------------------------------------------
// What the parser produces
// ---------------------------------------------------------------------------

proof fn lemma_parsed_nodes_wf(body: Seq<Seq<char>>, total: nat, k: nat)
    requires
        parse_nodes(body, total, k) is Ok,
    ensures
        parse_nodes(body, total, k)->Ok_0.len() == k,
        forall|i: int|
            0 <= i < k ==> node_wf(#[trigger] parse_nodes(body, total, k)->Ok_0[i]),
    decreases k,
{
    if k > 0 {
        lemma_parsed_nodes_wf(body, total, (k - 1) as nat);
        let ns = parse_nodes(body, total, (k - 1) as nat)->Ok_0;
        let n = spec_parse_node(body[k - 1])->Ok_0;
        assert(node_wf(n));
        assert forall|i: int| 0 <= i < k implies node_wf(
            #[trigger] parse_nodes(body, total, k)->Ok_0[i],
        ) by {
            if i < k - 1 {
                assert(parse_nodes(body, total, k)->Ok_0[i] == ns[i]);
            }
        }
    }
}

proof fn lemma_parsed_elements_wf(
    body: Seq<Seq<char>>,
    offset: nat,
    total: nat,
    k: nat,
    ids: Seq<i64>,
)
    requires
        ids.len() <= usize::MAX,
        parse_elements(body, offset, total, k, id_map(ids)) is Ok,
    ensures
        parse_elements(body, offset, total, k, id_map(ids))->Ok_0.len() == k,
        forall|i: int|
            0 <= i < k ==> element_wf(
                #[trigger] parse_elements(body, offset, total, k, id_map(ids))->Ok_0[i],
                ids.len(),
            ),
    decreases k,
{
    if k > 0 {
        lemma_parsed_elements_wf(body, offset, total, (k - 1) as nat, ids);
        let es = parse_elements(body, offset, total, (k - 1) as nat, id_map(ids))->Ok_0;
        let line = body[offset + k - 1];
        let e = spec_parse_element(line, id_map(ids))->Ok_0;
        let t = tokens(line);
        let a = spec_parse_i64(t[1], "element nodeA"@)->Ok_0;
        let b = spec_parse_i64(t[2], "element nodeB"@)->Ok_0;
        lemma_id_map_keys(ids, a);
        lemma_id_map_keys(ids, b);
        assert(element_wf(e, ids.len()));
        assert forall|i: int| 0 <= i < k implies element_wf(
            #[trigger] parse_elements(body, offset, total, k, id_map(ids))->Ok_0[i],
            ids.len(),
        ) by {
            if i < k - 1 {
                assert(parse_elements(body, offset, total, k, id_map(ids))->Ok_0[i] == es[i]);
            }
        }
    }
}

/// Whatever the parser accepts is a well-formed model.
pub proof fn lemma_parsed_model_wf(text: Seq<char>)
    requires
        spec_from_str(text) is Ok,
    ensures
        model_wf(spec_from_str(text)->Ok_0),
{
    let m = spec_from_str(text)->Ok_0;
    let ls = lines(text);
    let data = data_lines(ls.drop_first());
    let ct = tokens(data[0]);
    let ne = spec_parse_usize(ct[0], "element count"@)->Ok_0 as nat;
    let nn = spec_parse_usize(ct[1], "node count"@)->Ok_0 as nat;
    let body = data.drop_first();
    lemma_parsed_nodes_wf(body, nn, nn);
    let ids = node_ids(m.nodes);
    lemma_parsed_elements_wf(body, nn, ne, ne, ids);
    lemma_trim(ls[0]);
    lemma_lines_no_newline(text);
    let l0 = ls[0];
    let k = l0.len() - crate::text::trim_start(l0).len();
    assert forall|i: int| 0 <= i < m.title.len() implies m.title[i] != '\n' by {
        assert(m.title[i] == l0[k + i]);
        assert(lines(text)[0][k + i] != '\n');
    }
}

// ---------------------------------------------------------------------------
// Reading back what was written
// ---------------------------------------------------------------------------

/// A line character that is neither a line break nor a comment mark.
pub open spec fn line_char(c: char) -> bool {
    c != '\n' && c != '\r' && c != '#'
}

/// A line the data filter keeps as it is.
pub open spec fn data_line_ok(l: Seq<char>) -> bool {
    &&& l.len() > 0
    &&& !is_ws(l[0])
    &&& forall|i: int| 0 <= i < l.len() ==> line_char(#[trigger] l[i])
}

proof fn lemma_number_text_field(t: Seq<char>)
    requires
        t.len() > 0,
        number_chars(t),
    ensures
        field_text(t),
        trim(t) == t,
{
    assert(crate::numbers::number_char(t[0]));
    assert(crate::numbers::number_char(t.last()));
    lemma_trim_same(t);
}

/// The fields joined by commas: a non-empty line of field characters and commas.
proof fn lemma_join_chars(fs: Seq<Seq<char>>)
    requires
        fs.len() >= 1,
        forall|i: int| 0 <= i < fs.len() ==> field_text(#[trigger] fs[i]),
    ensures
        data_line_ok(join_fields(fs)),
        line_ok(join_fields(fs)),
        join_fields(fs)[0] == fs[0][0],
    decreases fs.len(),
{
    let j = join_fields(fs);
    assert(field_text(fs[0]));
    if fs.len() == 1 {
        assert(j == fs[0]);
    } else {
        let d = fs.drop_last();
        assert forall|i: int| 0 <= i < d.len() implies field_text(#[trigger] d[i]) by {
            assert(d[i] == fs[i]);
        }
        lemma_join_chars(d);
        let jd = join_fields(d);
        let l = fs.last();
        assert(field_text(fs[fs.len() - 1]));
        assert(j == jd + seq![','] + l);
        assert forall|i: int| 0 <= i < j.len() implies line_char(#[trigger] j[i]) by {
            if i < jd.len() {
                assert(j[i] == jd[i]);
            } else if i == jd.len() {
                assert(j[i] == ',');
            } else {
                assert(j[i] == l[i - jd.len() - 1]);
                assert(field_char(l[i - jd.len() - 1]));
            }
        }
        assert(j[0] == jd[0]);
        assert(j.last() == l.last());
        assert(field_char(l[l.len() - 1]));
    }
}

proof fn lemma_flag_text(b: bool)
    ensures
        field_text(flag_text(b)),
        trim(flag_text(b)) == flag_text(b),
        signed_value(flag_text(b)) == Some(if b {
            1int
        } else {
            0int
        }),
{
    let t = flag_text(b);
    assert(t.drop_last() =~= Seq::<char>::empty());
    assert(digits_value(t.drop_last()) == 0);
    if b {
        assert(t.last() == '1');
        assert(crate::text::digit_value('1') == 1);
        assert(digits_value(t) == 1);
    } else {
        assert(t.last() == '0');
        assert(digits_value(t) == 0);
    }
    assert(crate::text::is_digit(t[0]));
    lemma_trim_same(t);
}

proof fn lemma_i64_field(x: i64, what: Seq<char>)
    ensures
        field_text(int_text(x as int)),
        spec_parse_i64(int_text(x as int), what) == Ok::<i64, Seq<char>>(x),
{
    lemma_int_text_chars(x as int);
    lemma_number_text_field(int_text(x as int));
    lemma_signed_value_int_text(x as int);
}

proof fn lemma_float_field(t: Seq<char>, what: Seq<char>)
    requires
        is_float_literal(t),
    ensures
        field_text(t),
        spec_parse_f64(t, what) == Ok::<Seq<char>, Seq<char>>(t),
{
    lemma_float_literal_chars(t);
    lemma_number_text_field(t);
}

proof fn lemma_node_fields(n: NodeV)
    requires
        node_wf(n),
    ensures
        forall|i: int| 0 <= i < 10 ==> field_text(#[trigger] node_fields(n)[i]),
        node_fields(n).len() == 10,
{
    let fs = node_fields(n);
    lemma_i64_field(n.id, "node id"@);
    lemma_flag_text(n.fixed[0]);
    lemma_flag_text(n.fixed[1]);
    lemma_flag_text(n.fixed[2]);
    assert(is_float_literal(n.coord[0]) && is_float_literal(n.coord[1]) && is_float_literal(
        n.coord[2],
    ));
    assert(is_float_literal(n.force[0]) && is_float_literal(n.force[1]) && is_float_literal(
        n.force[2],
    ));
    lemma_float_field(n.coord[0], "x"@);
    lemma_float_field(n.coord[1], "y"@);
    lemma_float_field(n.coord[2], "z"@);
    lemma_float_field(n.force[0], "Fx"@);
    lemma_float_field(n.force[1], "Fy"@);
    lemma_float_field(n.force[2], "Fz"@);
}

/// The line written for a node parses back as that node.
proof fn lemma_node_line_parses(n: NodeV)
    requires
        node_wf(n),
    ensures
        spec_parse_node(join_fields(node_fields(n))) == Ok::<NodeV, Seq<char>>(n),
        data_line_ok(join_fields(node_fields(n))),
        line_ok(join_fields(node_fields(n))),
{
    let fs = node_fields(n);
    lemma_node_fields(n);
    lemma_tokens_join(fs);
    lemma_join_chars(fs);
    lemma_i64_field(n.id, "node id"@);
    lemma_flag_text(n.fixed[0]);
    lemma_flag_text(n.fixed[1]);
    lemma_flag_text(n.fixed[2]);
    assert(is_float_literal(n.coord[0]) && is_float_literal(n.coord[1]) && is_float_literal(
        n.coord[2],
    ));
    assert(is_float_literal(n.force[0]) && is_float_literal(n.force[1]) && is_float_literal(
        n.force[2],
    ));
    lemma_float_field(n.coord[0], "x"@);
    lemma_float_field(n.coord[1], "y"@);
    lemma_float_field(n.coord[2], "z"@);
    lemma_float_field(n.force[0], "Fx"@);
    lemma_float_field(n.force[1], "Fy"@);
    lemma_float_field(n.force[2], "Fz"@);
    let r = spec_parse_node(join_fields(fs))->Ok_0;
    assert(r.fixed =~= n.fixed);
    assert(r.coord =~= n.coord);
    assert(r.force =~= n.force);
}

/// Distinct ids: no id occurs twice.
proof fn lemma_first_repeat_distinct(ids: Seq<i64>, i: int, j: int)
    requires
        first_repeat(ids) is None,
        0 <= i < j < ids.len(),
    ensures
        ids[i] != ids[j],
    decreases ids.len(),
{
    if j < ids.len() - 1 {
        assert(ids.drop_last()[i] == ids[i] && ids.drop_last()[j] == ids[j]);
        lemma_first_repeat_distinct(ids.drop_last(), i, j);
    } else {
        assert(ids.drop_last()[i] == ids[i]);
        assert(!ids.drop_last().contains(ids.last()));
    }
}

/// With distinct ids, the id of the node at index `j` maps back to `j`.
proof fn lemma_id_map_index(ids: Seq<i64>, j: int)
    requires
        first_repeat(ids) is None,
        ids.len() <= usize::MAX,
        0 <= j < ids.len(),
    ensures
        id_map(ids).contains_key(ids[j]),
        id_map(ids)[ids[j]] == j,
{
    lemma_id_map_keys(ids, ids[j]);
    assert(ids.contains(ids[j]));
    let k = id_map(ids)[ids[j]] as int;
    if k < j {
        lemma_first_repeat_distinct(ids, k, j);
    } else if j < k {
        lemma_first_repeat_distinct(ids, j, k);
    }
}

/// The line written for an element parses back as that element.
proof fn lemma_element_line_parses(e: ElementV, nodes: Seq<NodeV>)
    requires
        element_wf(e, nodes.len()),
        first_repeat(node_ids(nodes)) is None,
        nodes.len() <= usize::MAX,
    ensures
        spec_parse_element(join_fields(element_fields(e, nodes)), id_map(node_ids(nodes)))
            == Ok::<ElementV, Seq<char>>(e),
        data_line_ok(join_fields(element_fields(e, nodes))),
        line_ok(join_fields(element_fields(e, nodes))),
{
    let ids = node_ids(nodes);
    let fs = element_fields(e, nodes);
    let a = nodes[e.nodes[0] as int].id;
    let b = nodes[e.nodes[1] as int].id;
    assert(tokens(join_fields(fs)) == fs) by {
        lemma_i64_field(e.id, "element id"@);
        lemma_i64_field(a, "element nodeA"@);
        lemma_i64_field(b, "element nodeB"@);
        lemma_float_field(e.e, "elastic modulus E"@);
        lemma_float_field(e.area, "area A"@);
        assert forall|i: int| 0 <= i < fs.len() implies field_text(#[trigger] fs[i]) by {
        }
        lemma_tokens_join(fs);
        lemma_join_chars(fs);
    }
    assert(data_line_ok(join_fields(fs)) && line_ok(join_fields(fs))) by {
        lemma_i64_field(e.id, "element id"@);
        lemma_i64_field(a, "element nodeA"@);
        lemma_i64_field(b, "element nodeB"@);
        lemma_float_field(e.e, "elastic modulus E"@);
        lemma_float_field(e.area, "area A"@);
        assert forall|i: int| 0 <= i < fs.len() implies field_text(#[trigger] fs[i]) by {
        }
        lemma_join_chars(fs);
    }
    let t = tokens(join_fields(fs));
    lemma_i64_field(e.id, "element id"@);
    lemma_i64_field(a, "element nodeA"@);
    lemma_i64_field(b, "element nodeB"@);
    lemma_float_field(e.e, "elastic modulus E"@);
    lemma_float_field(e.area, "area A"@);
    assert(spec_parse_i64(t[0], "element id"@) == Ok::<i64, Seq<char>>(e.id));
    assert(spec_parse_i64(t[1], "element nodeA"@) == Ok::<i64, Seq<char>>(a));
    assert(spec_parse_i64(t[2], "element nodeB"@) == Ok::<i64, Seq<char>>(b));
    assert(spec_parse_f64(t[3], "elastic modulus E"@) == Ok::<Seq<char>, Seq<char>>(e.e));
    assert(spec_parse_f64(t[4], "area A"@) == Ok::<Seq<char>, Seq<char>>(e.area));
    assert(ids[e.nodes[0] as int] == a);
    assert(ids[e.nodes[1] as int] == b);
    lemma_id_map_index(ids, e.nodes[0] as int);
    lemma_id_map_index(ids, e.nodes[1] as int);
    let r = spec_parse_element(join_fields(fs), id_map(ids))->Ok_0;
    assert(r.nodes =~= e.nodes);
}

proof fn lemma_data_concat(a: Seq<Seq<char>>, b: Seq<Seq<char>>)
    ensures
        data_lines(a + b) == data_lines(a) + data_lines(b),
    decreases b.len(),
{
    if b.len() == 0 {
        assert(a + b =~= a);
        assert(data_lines(a) + data_lines(b) =~= data_lines(a));
    } else {
        assert((a + b).drop_last() =~= a + b.drop_last());
        assert((a + b).last() == b.last());
        lemma_data_concat(a, b.drop_last());
        assert(data_lines(a) + data_lines(b.drop_last()).push(strip_comment_spec(b.last()))
            =~= (data_lines(a) + data_lines(b.drop_last())).push(strip_comment_spec(b.last())));
    }
}

proof fn lemma_data_plain(xs: Seq<Seq<char>>)
    requires
        forall|i: int| 0 <= i < xs.len() ==> data_line_ok(#[trigger] xs[i]),
    ensures
        data_lines(xs) == xs,
    decreases xs.len(),
{
    if xs.len() > 0 {
        let l = xs.last();
        assert(data_line_ok(xs[xs.len() - 1]));
        assert forall|i: int| 0 <= i < xs.drop_last().len() implies data_line_ok(
            #[trigger] xs.drop_last()[i],
        ) by {
            assert(xs.drop_last()[i] == xs[i]);
        }
        lemma_data_plain(xs.drop_last());
        assert forall|i: int| 0 <= i < l.len() implies l[i] != '#' by {
            assert(line_char(l[i]));
        }
        lemma_strip_comment_none(l);
        lemma_not_blank(l);
        assert(xs.drop_last().push(l) =~= xs);
    }
}

proof fn lemma_node_lines(nodes: Seq<NodeV>)
    requires
        forall|i: int| 0 <= i < nodes.len() ==> node_wf(#[trigger] nodes[i]),
    ensures
        forall|i: int| 0 <= i < nodes.len() ==> data_line_ok(#[trigger] node_lines(nodes)[i]),
        forall|i: int| 0 <= i < nodes.len() ==> line_ok(#[trigger] node_lines(nodes)[i]),
        forall|i: int|
            0 <= i < nodes.len() ==> spec_parse_node(#[trigger] node_lines(nodes)[i]) == Ok::<
                NodeV,
                Seq<char>,
            >(nodes[i]),
{
    assert forall|i: int| 0 <= i < nodes.len() implies data_line_ok(
        #[trigger] node_lines(nodes)[i],
    ) && line_ok(node_lines(nodes)[i]) && spec_parse_node(node_lines(nodes)[i]) == Ok::<
        NodeV,
        Seq<char>,
    >(nodes[i]) by {
        lemma_node_line_parses(nodes[i]);
    }
}

proof fn lemma_element_lines(es: Seq<ElementV>, nodes: Seq<NodeV>)
    requires
        forall|i: int| 0 <= i < es.len() ==> element_wf(#[trigger] es[i], nodes.len()),
        first_repeat(node_ids(nodes)) is None,
        nodes.len() <= usize::MAX,
    ensures
        forall|i: int| 0 <= i < es.len() ==> data_line_ok(#[trigger] element_lines(es, nodes)[i]),
        forall|i: int| 0 <= i < es.len() ==> line_ok(#[trigger] element_lines(es, nodes)[i]),
        forall|i: int|
            0 <= i < es.len() ==> spec_parse_element(
                #[trigger] element_lines(es, nodes)[i],
                id_map(node_ids(nodes)),
            ) == Ok::<ElementV, Seq<char>>(es[i]),
{
    assert forall|i: int| 0 <= i < es.len() implies data_line_ok(
        #[trigger] element_lines(es, nodes)[i],
    ) && line_ok(element_lines(es, nodes)[i]) && spec_parse_element(
        element_lines(es, nodes)[i],
        id_map(node_ids(nodes)),
    ) == Ok::<ElementV, Seq<char>>(es[i]) by {
        lemma_element_line_parses(es[i], nodes);
    }
}

proof fn lemma_nodes_read_back(body: Seq<Seq<char>>, nodes: Seq<NodeV>, k: nat)
    requires
        k <= nodes.len(),
        nodes.len() <= body.len(),
        forall|i: int|
            0 <= i < nodes.len() ==> spec_parse_node(#[trigger] body[i]) == Ok::<
                NodeV,
                Seq<char>,
            >(nodes[i]),
    ensures
        parse_nodes(body, nodes.len(), k) == Ok::<Seq<NodeV>, Seq<char>>(nodes.take(k as int)),
    decreases k,
{
    if k > 0 {
        lemma_nodes_read_back(body, nodes, (k - 1) as nat);
        assert(spec_parse_node(body[k - 1]) == Ok::<NodeV, Seq<char>>(nodes[k - 1]));
        assert(nodes.take(k - 1).push(nodes[k - 1]) =~= nodes.take(k as int));
    } else {
        assert(nodes.take(0) =~= Seq::<NodeV>::empty());
    }
}

proof fn lemma_elements_read_back(
    body: Seq<Seq<char>>,
    offset: nat,
    es: Seq<ElementV>,
    ids: Map<i64, usize>,
    k: nat,
)
    requires
        k <= es.len(),
        offset + es.len() <= body.len(),
        forall|i: int|
            0 <= i < es.len() ==> spec_parse_element(#[trigger] body[offset + i], ids) == Ok::<
                ElementV,
                Seq<char>,
            >(es[i]),
    ensures
        parse_elements(body, offset, es.len(), k, ids) == Ok::<Seq<ElementV>, Seq<char>>(
            es.take(k as int),
        ),
    decreases k,
{
    if k > 0 {
        lemma_elements_read_back(body, offset, es, ids, (k - 1) as nat);
        assert(spec_parse_element(body[offset + (k - 1)], ids) == Ok::<ElementV, Seq<char>>(
            es[k - 1],
        ));
        assert(es.take(k - 1).push(es[k - 1]) =~= es.take(k as int));
    } else {
        assert(es.take(0) =~= Seq::<ElementV>::empty());
    }
}

proof fn lemma_count_field(n: nat, what: Seq<char>)
    requires
        n <= usize::MAX,
    ensures
        field_text(nat_text(n)),
        spec_parse_usize(nat_text(n), what) == Ok::<usize, Seq<char>>(n as usize),
{
    lemma_nat_text(n);
    assert(number_chars(nat_text(n))) by {
        assert forall|i: int| 0 <= i < nat_text(n).len() implies crate::numbers::number_char(
            #[trigger] nat_text(n)[i],
        ) by {
            assert(crate::text::is_digit(nat_text(n)[i]));
        }
    }
    lemma_number_text_field(nat_text(n));
    lemma_unsigned_value_nat_text(n);
}

pub open spec fn counts_line(m: ModelV) -> Seq<char> {
    join_fields(seq![nat_text(m.elements.len()), nat_text(m.nodes.len())])
}

proof fn lemma_counts_line(m: ModelV)
    requires
        model_wf(m),
    ensures
        data_line_ok(counts_line(m)),
        line_ok(counts_line(m)),
        tokens(counts_line(m)) == seq![nat_text(m.elements.len()), nat_text(m.nodes.len())],
        spec_parse_usize(nat_text(m.elements.len()), "element count"@) == Ok::<usize, Seq<char>>(
            m.elements.len() as usize,
        ),
        spec_parse_usize(nat_text(m.nodes.len()), "node count"@) == Ok::<usize, Seq<char>>(
            m.nodes.len() as usize,
        ),
{
    lemma_count_field(m.elements.len(), "element count"@);
    lemma_count_field(m.nodes.len(), "node count"@);
    let cfs = seq![nat_text(m.elements.len()), nat_text(m.nodes.len())];
    assert forall|i: int| 0 <= i < cfs.len() implies field_text(#[trigger] cfs[i]) by {
    }
    lemma_tokens_join(cfs);
    lemma_join_chars(cfs);
}

/// The written text splits back into the written lines.
proof fn lemma_written_lines(m: ModelV)
    requires
        model_wf(m),
    ensures
        lines(spec_to_input_string(m)) == input_lines(m),
{
    let nn = m.nodes.len();
    let nls = node_lines(m.nodes);
    let els = element_lines(m.elements, m.nodes);
    let ls = input_lines(m);
    lemma_counts_line(m);
    lemma_node_lines(m.nodes);
    lemma_element_lines(m.elements, m.nodes);
    reveal_strlit("# id, fixX, fixY, fixZ, x, y, z, Fx, Fy, Fz");
    reveal_strlit("# id, nodeA, nodeB, E, A");
    let nh = node_header();
    let eh = element_header();
    assert(line_ok(nh) && line_ok(eh));
    lemma_trim(m.title);
    assert(line_ok(m.title));
    assert forall|i: int| 0 <= i < ls.len() implies line_ok(#[trigger] ls[i]) by {
        if i == 0 {
        } else if i == 1 {
        } else if i == 2 {
        } else if i < 3 + nn {
            assert(ls[i] == nls[i - 3]);
        } else if i == 3 + nn {
            assert(ls[i] == eh);
        } else {
            assert(ls[i] == els[i - 4 - nn]);
        }
    }
    lemma_lines_text(ls);
}

proof fn lemma_data_blank(l: Seq<char>)
    requires
        is_blank(strip_comment_spec(l)),
    ensures
        data_lines(seq![l]) == Seq::<Seq<char>>::empty(),
{
    assert(seq![l].drop_last() =~= Seq::<Seq<char>>::empty());
    assert(data_lines(seq![l].drop_last()) == Seq::<Seq<char>>::empty());
    assert(seq![l].last() == l);
}

/// The data lines of the written text: the counts, node and element lines.
proof fn lemma_written_data(m: ModelV)
    requires
        model_wf(m),
    ensures
        data_lines(input_lines(m).drop_first()) == seq![counts_line(m)] + node_lines(m.nodes)
            + element_lines(m.elements, m.nodes),
{
    let counts = counts_line(m);
    let nls = node_lines(m.nodes);
    let els = element_lines(m.elements, m.nodes);
    lemma_counts_line(m);
    lemma_node_lines(m.nodes);
    lemma_element_lines(m.elements, m.nodes);
    reveal_strlit("# id, fixX, fixY, fixZ, x, y, z, Fx, Fy, Fz");
    reveal_strlit("# id, nodeA, nodeB, E, A");
    let nh = node_header();
    let eh = element_header();
    assert(nh[0] == '#' && eh[0] == '#');
    lemma_strip_comment_line(nh);
    lemma_strip_comment_line(eh);
    let rest = input_lines(m).drop_first();
    assert(rest =~= seq![counts] + seq![nh] + nls + seq![eh] + els);
    lemma_data_concat(seq![counts] + seq![nh] + nls + seq![eh], els);
    lemma_data_concat(seq![counts] + seq![nh] + nls, seq![eh]);
    lemma_data_concat(seq![counts] + seq![nh], nls);
    lemma_data_concat(seq![counts], seq![nh]);
    lemma_data_plain(seq![counts]);
    lemma_data_plain(nls);
    lemma_data_plain(els);
    lemma_data_blank(nh);
    lemma_data_blank(eh);
    assert(data_lines(rest) =~= seq![counts] + nls + els);
}

/// The steps of `spec_from_str` on a text, given each step's outcome.
proof fn lemma_from_str_steps(text: Seq<char>, m: ModelV)
    requires
        lines(text).len() > 0,
        !is_blank(lines(text)[0]),
        trim(lines(text)[0]) == m.title,
        data_lines(lines(text).drop_first()).len() > 0,
        tokens(data_lines(lines(text).drop_first())[0]) == seq![
            nat_text(m.elements.len()),
            nat_text(m.nodes.len()),
        ],
        spec_parse_usize(nat_text(m.elements.len()), "element count"@) == Ok::<usize, Seq<char>>(
            m.elements.len() as usize,
        ),
        spec_parse_usize(nat_text(m.nodes.len()), "node count"@) == Ok::<usize, Seq<char>>(
            m.nodes.len() as usize,
        ),
        0 < m.nodes.len() <= usize::MAX,
        0 < m.elements.len() <= usize::MAX,
        parse_nodes(data_lines(lines(text).drop_first()).drop_first(), m.nodes.len(), m.nodes.len())
            == Ok::<Seq<NodeV>, Seq<char>>(m.nodes),
        first_repeat(node_ids(m.nodes)) is None,
        parse_elements(
            data_lines(lines(text).drop_first()).drop_first(),
            m.nodes.len(),
            m.elements.len(),
            m.elements.len(),
            id_map(node_ids(m.nodes)),
        ) == Ok::<Seq<ElementV>, Seq<char>>(m.elements),
    ensures
        spec_from_str(text) == Ok::<ModelV, Seq<char>>(m),
{
}

/// A well-formed model written in the input format reads back as itself.
#[verifier::rlimit(40)]
pub proof fn lemma_written_model_reads_back(m: ModelV)
    requires
        model_wf(m),
    ensures
        spec_from_str(spec_to_input_string(m)) == Ok::<ModelV, Seq<char>>(m),
{
    let ne = m.elements.len();
    let nn = m.nodes.len();
    let nls = node_lines(m.nodes);
    let els = element_lines(m.elements, m.nodes);
    let text = spec_to_input_string(m);
    let ls = input_lines(m);
    assert(lines(text) == ls) by {
        lemma_written_lines(m);
    }
    let data = data_lines(ls.drop_first());
    assert(data == seq![counts_line(m)] + nls + els) by {
        lemma_written_data(m);
    }
    let body = data.drop_first();
    assert(body =~= nls + els);
    assert(ls[0] == m.title);
    assert(!is_blank(ls[0]) && trim(ls[0]) == m.title) by {
        lemma_trim(m.title);
        lemma_not_blank(m.title);
    }
    assert(data[0] == counts_line(m));
    assert(tokens(data[0]) == seq![nat_text(ne), nat_text(nn)]
        && spec_parse_usize(nat_text(ne), "element count"@) == Ok::<usize, Seq<char>>(ne as usize)
        && spec_parse_usize(nat_text(nn), "node count"@) == Ok::<usize, Seq<char>>(nn as usize))
        by {
        lemma_counts_line(m);
    }
    assert(parse_nodes(body, nn, nn) == Ok::<Seq<NodeV>, Seq<char>>(m.nodes)) by {
        lemma_node_lines(m.nodes);
        assert forall|i: int| 0 <= i < nn implies spec_parse_node(#[trigger] body[i]) == Ok::<
            NodeV,
            Seq<char>,
        >(m.nodes[i]) by {
            assert(body[i] == nls[i]);
        }
        lemma_nodes_read_back(body, m.nodes, nn);
        assert(m.nodes.take(nn as int) =~= m.nodes);
    }
    let ids = id_map(node_ids(m.nodes));
    assert(parse_elements(body, nn, ne, ne, ids) == Ok::<Seq<ElementV>, Seq<char>>(m.elements))
        by {
        lemma_element_lines(m.elements, m.nodes);
        assert forall|i: int| 0 <= i < ne implies spec_parse_element(
            #[trigger] body[nn + i],
            ids,
        ) == Ok::<ElementV, Seq<char>>(m.elements[i]) by {
            assert(body[nn + i] == els[i]);
        }
        lemma_elements_read_back(body, nn, m.elements, ids, ne);
        assert(m.elements.take(ne as int) =~= m.elements);
    }
    lemma_from_str_steps(text, m);
}

/// Two texts with the same title line and the same data lines describe the same model.
proof fn lemma_from_str_by_lines(t1: Seq<char>, t2: Seq<char>)
    requires
        lines(t1).len() > 0,
        lines(t2).len() > 0,
        lines(t1)[0] == lines(t2)[0],
        data_lines(lines(t1).drop_first()) == data_lines(lines(t2).drop_first()),
    ensures
        spec_from_str(t1) == spec_from_str(t2),
{
}

/// Blank lines (empty or whitespace only) and comment lines after the title
/// change nothing: a text with such a line inserted describes the same model,
/// or has the same problem.
pub proof fn lemma_comment_lines_ignored(ls: Seq<Seq<char>>, i: int, c: Seq<char>)
    requires
        forall|k: int| 0 <= k < ls.len() ==> line_ok(#[trigger] ls[k]),
        line_ok(c),
        1 <= i <= ls.len(),
        is_blank(strip_comment_spec(c)),
    ensures
        spec_from_str(text_of_lines(ls.insert(i, c))) == spec_from_str(text_of_lines(ls)),
{
    let ls2 = ls.insert(i, c);
    assert forall|k: int| 0 <= k < ls2.len() implies line_ok(#[trigger] ls2[k]) by {
        if k < i {
            assert(ls2[k] == ls[k]);
        } else if k == i {
            assert(ls2[k] == c);
        } else {
            assert(ls2[k] == ls[k - 1]);
        }
    }
    lemma_lines_text(ls);
    lemma_lines_text(ls2);
    let a = ls.subrange(1, i);
    let b = ls.skip(i);
    assert(ls.drop_first() =~= a + b);
    assert(ls2.drop_first() =~= a + seq![c] + b);
    lemma_data_concat(a + seq![c], b);
    lemma_data_concat(a, seq![c]);
    lemma_data_concat(a, b);
    lemma_data_blank(c);
    assert(data_lines(a) + Seq::<Seq<char>>::empty() =~= data_lines(a));
    assert(ls2[0] == ls[0]);
    lemma_from_str_by_lines(text_of_lines(ls2), text_of_lines(ls));
}

/// Reading a text, writing the model back and reading that again gives the same model.
pub proof fn lemma_input_round_trip(text: Seq<char>)
    requires
        spec_from_str(text) is Ok,
    ensures
        spec_from_str(spec_to_input_string(spec_from_str(text)->Ok_0)) == spec_from_str(text),
{
    lemma_parsed_model_wf(text);
    lemma_written_model_reads_back(spec_from_str(text)->Ok_0);
}

proof fn lemma_no_problem(es: Seq<ElementV>, cs: Seq<MemberChecks>, k: nat, i: int)
    requires
        first_problem(es, cs, k) is None,
        0 <= i < k,
    ensures
        element_problem(es[i], cs[i]) is None,
    decreases k,
{
    if i < k - 1 {
        lemma_no_problem(es, cs, (k - 1) as nat, i);
    }
}

/// A model read in full (parsed, then checked) is valid: it is well formed,
/// no member joins a node to itself, and the numeric checks found nothing
/// wrong with any member (no zero length, `E > 0`, `A > 0`).
pub proof fn lemma_read_model_valid(text: Seq<char>, cs: Seq<MemberChecks>)
    requires
        spec_from_str(text) is Ok,
        cs.len() == spec_from_str(text)->Ok_0.elements.len(),
        checked_model(spec_from_str(text)->Ok_0, cs) is Ok,
    ensures
        ({
            let m = checked_model(spec_from_str(text)->Ok_0, cs)->Ok_0;
            &&& m == spec_from_str(text)->Ok_0
            &&& model_wf(m)
            &&& forall|i: int|
                0 <= i < m.elements.len() ==> #[trigger] m.elements[i].nodes[0]
                    != m.elements[i].nodes[1]
            &&& forall|i: int|
                0 <= i < m.elements.len() ==> !(#[trigger] cs[i]).zero_length
                    && !cs[i].non_positive_modulus && !cs[i].non_positive_area
        }),
{
    let m = spec_from_str(text)->Ok_0;
    lemma_parsed_model_wf(text);
    assert forall|i: int| 0 <= i < m.elements.len() implies #[trigger] m.elements[i].nodes[0]
        != m.elements[i].nodes[1] by {
        lemma_no_problem(m.elements, cs, m.elements.len(), i);
    }
    assert forall|i: int| 0 <= i < m.elements.len() implies !(#[trigger] cs[i]).zero_length
        && !cs[i].non_positive_modulus && !cs[i].non_positive_area by {
        lemma_no_problem(m.elements, cs, m.elements.len(), i);
    }
}

} // verus!
