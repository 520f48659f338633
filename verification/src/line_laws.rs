//! Laws of the input format's line handling: what may change in the lines
//! after the title without changing the model they describe.
//!
//! - Inserting a blank, whitespace-only or comment-only line gives the same
//!   result, error included ([`lemma_blank_or_comment_line_inserted`]).
//! - Appending a `#` comment to a line ([`lemma_comment_appended_to_line`]),
//!   exchanging separators one for one ([`lemma_separators_exchanged_in_line`])
//!   or replacing a run of separators after a field by another run
//!   ([`lemma_separator_run_replaced_in_line`]) keeps the text accepted or
//!   refused alike, and an accepted text describing the same model.
use vstd::prelude::*;

use crate::model::{
    data_lines, id_map, node_ids, parse_elements, parse_nodes, spec_from_str, spec_parse_element,
    spec_parse_node, spec_parse_usize, ElementV, NodeV,
};
use crate::text::{
    field_char, first_index, is_blank, lemma_first_index, is_separator, is_ws, lemma_first_index_bound,
    lemma_lines_text, lemma_trim_end_prefix, lemma_trim_start_suffix, line_ok, lines,
    split_fields, strip_comment_spec, text_of_lines, tokens, trim_start,
};

verus! {

// ---------------------------------------------------------------------------
// Lines that read alike
// ---------------------------------------------------------------------------

/// Two lines after the title that read alike: once their comments are
/// removed, both or neither is blank, and they hold the same fields.
pub open spec fn same_data(a: Seq<char>, b: Seq<char>) -> bool {
    &&& is_blank(strip_comment_spec(a)) == is_blank(strip_comment_spec(b))
    &&& tokens(strip_comment_spec(a)) == tokens(strip_comment_spec(b))
}

/// `b` is `a` with some separators exchanged for other separators.
pub open spec fn separators_exchanged(a: Seq<char>, b: Seq<char>) -> bool {
    &&& a.len() == b.len()
    &&& forall|i: int|
        0 <= i < a.len() ==> a[i] == b[i] || (is_separator(a[i]) && is_separator(b[i]))
}

/// The part of `s` before its comment holds a field character.
pub open spec fn has_field(s: Seq<char>) -> bool {
    exists|i: int| 0 <= i < strip_comment_spec(s).len() && field_char(strip_comment_spec(s)[i])
}

proof fn lemma_trim_start_empty(s: Seq<char>)
    requires
        trim_start(s).len() == 0,
    ensures
        forall|i: int| 0 <= i < s.len() ==> is_ws(s[i]),
    decreases s.len(),
{
    if s.len() > 0 {
        assert(is_ws(s[0]));
        lemma_trim_start_empty(s.drop_first());
        assert forall|i: int| 0 <= i < s.len() implies is_ws(s[i]) by {
            if i > 0 {
                assert(s[i] == s.drop_first()[i - 1]);
            }
        }
    }
}

/// A text with a character that is not whitespace is not blank.
proof fn lemma_not_all_ws(s: Seq<char>, i: int)
    requires
        0 <= i < s.len(),
        !is_ws(s[i]),
    ensures
        !is_blank(s),
{
    let u = trim_start(s);
    lemma_trim_start_suffix(s);
    lemma_trim_end_prefix(u);
    if u.len() == 0 {
        lemma_trim_start_empty(s);
    }
}

proof fn lemma_split_exchanged(a: Seq<char>, b: Seq<char>, cur: Seq<char>)
    requires
        separators_exchanged(a, b),
    ensures
        split_fields(a, cur) == split_fields(b, cur),
    decreases a.len(),
{
    if a.len() > 0 {
        assert(separators_exchanged(a.drop_first(), b.drop_first())) by {
            assert forall|i: int| 0 <= i < a.drop_first().len() implies a.drop_first()[i]
                == b.drop_first()[i] || (is_separator(a.drop_first()[i]) && is_separator(
                b.drop_first()[i],
            )) by {
                assert(a.drop_first()[i] == a[i + 1] && b.drop_first()[i] == b[i + 1]);
            }
        }
        assert(a[0] == b[0] || (is_separator(a[0]) && is_separator(b[0])));
        lemma_split_exchanged(a.drop_first(), b.drop_first(), seq![]);
        lemma_split_exchanged(a.drop_first(), b.drop_first(), cur.push(a[0]));
    }
}

proof fn lemma_first_hash_exchanged(a: Seq<char>, b: Seq<char>)
    requires
        separators_exchanged(a, b),
    ensures
        first_index(a, '#') == first_index(b, '#'),
    decreases a.len(),
{
    if a.len() > 0 {
        assert(separators_exchanged(a.drop_first(), b.drop_first())) by {
            assert forall|i: int| 0 <= i < a.drop_first().len() implies a.drop_first()[i]
                == b.drop_first()[i] || (is_separator(a.drop_first()[i]) && is_separator(
                b.drop_first()[i],
            )) by {
                assert(a.drop_first()[i] == a[i + 1] && b.drop_first()[i] == b[i + 1]);
            }
        }
        assert(a[0] == b[0] || (is_separator(a[0]) && is_separator(b[0])));
        lemma_first_hash_exchanged(a.drop_first(), b.drop_first());
    }
}

/// Exchanging separators in a line that holds a field keeps it reading alike.
pub proof fn lemma_separators_exchanged(a: Seq<char>, b: Seq<char>)
    requires
        separators_exchanged(a, b),
        has_field(a),
    ensures
        same_data(a, b),
{
    lemma_first_hash_exchanged(a, b);
    let k = first_index(a, '#') as int;
    lemma_first_index_bound(a, '#');
    let sa = strip_comment_spec(a);
    let sb = strip_comment_spec(b);
    assert(sa == a.take(k) && sb == b.take(k));
    assert(separators_exchanged(sa, sb)) by {
        assert forall|i: int| 0 <= i < sa.len() implies sa[i] == sb[i] || (is_separator(sa[i])
            && is_separator(sb[i])) by {
            assert(sa[i] == a[i] && sb[i] == b[i]);
        }
    }
    lemma_split_exchanged(sa, sb, seq![]);
    let i = choose|i: int| 0 <= i < sa.len() && field_char(sa[i]);
    assert(sa[i] == sb[i]);
    lemma_not_all_ws(sa, i);
    lemma_not_all_ws(sb, i);
}

proof fn lemma_first_hash_append(l: Seq<char>, c: Seq<char>)
    requires
        c.len() > 0,
        c[0] == '#',
    ensures
        first_index(l + c, '#') == first_index(l, '#'),
    decreases l.len(),
{
    if l.len() == 0 {
        assert(l + c =~= c);
    } else {
        assert((l + c)[0] == l[0]);
        assert((l + c).drop_first() =~= l.drop_first() + c);
        lemma_first_hash_append(l.drop_first(), c);
    }
}

/// Appending a comment to a line keeps it reading alike.
pub proof fn lemma_comment_appended(l: Seq<char>, c: Seq<char>)
    requires
        c.len() > 0,
        c[0] == '#',
    ensures
        same_data(l, l + c),
{
    lemma_first_hash_append(l, c);
    lemma_first_index_bound(l, '#');
    let k = first_index(l, '#') as int;
    assert((l + c).take(k) =~= l.take(k));
}

// ---------------------------------------------------------------------------
// Texts that read alike
// ---------------------------------------------------------------------------

/// The value of a result, when it is one.
pub open spec fn ok_part<T>(r: Result<T, Seq<char>>) -> Option<T> {
    match r {
        Ok(v) => Some(v),
        Err(_) => None,
    }
}

/// Data lines that hold the same fields, line by line.
pub open spec fn same_fields(d1: Seq<Seq<char>>, d2: Seq<Seq<char>>) -> bool {
    &&& d1.len() == d2.len()
    &&& forall|k: int| #![trigger d1[k]] #![trigger d2[k]] 0 <= k < d1.len() ==> tokens(d1[k]) == tokens(d2[k])
}

proof fn lemma_data_same(a: Seq<Seq<char>>, b: Seq<Seq<char>>)
    requires
        a.len() == b.len(),
        forall|k: int| 0 <= k < a.len() ==> same_data(#[trigger] a[k], b[k]),
    ensures
        same_fields(data_lines(a), data_lines(b)),
    decreases a.len(),
{
    if a.len() > 0 {
        let a0 = a.drop_last();
        let b0 = b.drop_last();
        assert forall|k: int| 0 <= k < a0.len() implies same_data(#[trigger] a0[k], b0[k]) by {
            assert(a0[k] == a[k] && b0[k] == b[k]);
        }
        lemma_data_same(a0, b0);
        assert(same_data(a[a.len() - 1], b[b.len() - 1]));
        let da = data_lines(a0);
        let db = data_lines(b0);
        if !is_blank(strip_comment_spec(a.last())) {
            let la = strip_comment_spec(a.last());
            let lb = strip_comment_spec(b.last());
            assert(data_lines(a) == da.push(la));
            assert(data_lines(b) == db.push(lb));
            assert forall|k: int| 0 <= k < da.len() + 1 implies tokens(#[trigger] da.push(la)[k])
                == tokens(db.push(lb)[k]) by {
                if k < da.len() {
                    assert(da.push(la)[k] == da[k] && db.push(lb)[k] == db[k]);
                }
            }
        }
    }
}

proof fn lemma_node_same(l1: Seq<char>, l2: Seq<char>)
    requires
        tokens(l1) == tokens(l2),
    ensures
        ok_part(spec_parse_node(l1)) == ok_part(spec_parse_node(l2)),
{
}

proof fn lemma_element_same(l1: Seq<char>, l2: Seq<char>, ids: Map<i64, usize>)
    requires
        tokens(l1) == tokens(l2),
    ensures
        ok_part(spec_parse_element(l1, ids)) == ok_part(spec_parse_element(l2, ids)),
{
}

proof fn lemma_nodes_same(b1: Seq<Seq<char>>, b2: Seq<Seq<char>>, total: nat, k: nat)
    requires
        same_fields(b1, b2),
    ensures
        ok_part(parse_nodes(b1, total, k)) == ok_part(parse_nodes(b2, total, k)),
    decreases k,
{
    if k > 0 {
        lemma_nodes_same(b1, b2, total, (k - 1) as nat);
        if k - 1 < b1.len() {
            lemma_node_same(b1[k - 1], b2[k - 1]);
        }
    }
}

proof fn lemma_elements_same(
    b1: Seq<Seq<char>>,
    b2: Seq<Seq<char>>,
    offset: nat,
    total: nat,
    k: nat,
    ids: Map<i64, usize>,
)
    requires
        same_fields(b1, b2),
    ensures
        ok_part(parse_elements(b1, offset, total, k, ids)) == ok_part(
            parse_elements(b2, offset, total, k, ids),
        ),
    decreases k,
{
    if k > 0 {
        lemma_elements_same(b1, b2, offset, total, (k - 1) as nat, ids);
        if offset + k - 1 < b1.len() {
            lemma_element_same(b1[offset + k - 1], b2[offset + k - 1], ids);
        }
    }
}

/// Two texts with the same title line whose other lines read alike, line by
/// line, are both refused or both accepted as the same model.
pub proof fn lemma_same_data_same_model(ls1: Seq<Seq<char>>, ls2: Seq<Seq<char>>)
    requires
        ls1.len() == ls2.len(),
        ls1.len() >= 1,
        forall|k: int| 0 <= k < ls1.len() ==> line_ok(#[trigger] ls1[k]),
        forall|k: int| 0 <= k < ls2.len() ==> line_ok(#[trigger] ls2[k]),
        ls1[0] == ls2[0],
        forall|k: int| 1 <= k < ls1.len() ==> same_data(#[trigger] ls1[k], ls2[k]),
    ensures
        ok_part(spec_from_str(text_of_lines(ls1))) == ok_part(spec_from_str(text_of_lines(ls2))),
{
    let t1 = text_of_lines(ls1);
    let t2 = text_of_lines(ls2);
    lemma_lines_text(ls1);
    lemma_lines_text(ls2);
    let a = ls1.drop_first();
    let b = ls2.drop_first();
    assert forall|k: int| 0 <= k < a.len() implies same_data(#[trigger] a[k], b[k]) by {
        assert(a[k] == ls1[k + 1] && b[k] == ls2[k + 1]);
    }
    lemma_data_same(a, b);
    let d1 = data_lines(a);
    let d2 = data_lines(b);
    assert(lines(t1) == ls1 && lines(t2) == ls2);
    if !is_blank(ls1[0]) && d1.len() > 0 {
        assert(tokens(d1[0]) == tokens(d2[0]));
        let ct = tokens(d1[0]);
        let body1 = d1.drop_first();
        let body2 = d2.drop_first();
        assert(same_fields(body1, body2)) by {
            assert forall|k: int| 0 <= k < body1.len() implies tokens(#[trigger] body1[k]) == tokens(
                body2[k],
            ) by {
                assert(body1[k] == d1[k + 1] && body2[k] == d2[k + 1]);
            }
        }
        if ct.len() >= 2 {
            let ne = spec_parse_usize(ct[0], "element count"@);
            let nn = spec_parse_usize(ct[1], "node count"@);
            if ne is Ok && nn is Ok {
                let ne = ne->Ok_0 as nat;
                let nn = nn->Ok_0 as nat;
                lemma_nodes_same(body1, body2, nn, nn);
                match parse_nodes(body1, nn, nn) {
                    Ok(nodes) => {
                        assert(parse_nodes(body2, nn, nn) == Ok::<Seq<NodeV>, Seq<char>>(nodes));
                        let ids = node_ids(nodes);
                        lemma_elements_same(body1, body2, nn, ne, ne, id_map(ids));
                        match parse_elements(body1, nn, ne, ne, id_map(ids)) {
                            Ok(es) => {
                                assert(parse_elements(body2, nn, ne, ne, id_map(ids)) == Ok::<
                                    Seq<ElementV>,
                                    Seq<char>,
                                >(es));
                            },
                            Err(_) => {
                                assert(parse_elements(body2, nn, ne, ne, id_map(ids)) is Err);
                            },
                        }
                    },
                    Err(_) => {
                        assert(parse_nodes(body2, nn, nn) is Err);
                    },
                }
            }
        }
    }
}

proof fn lemma_line_replaced(ls: Seq<Seq<char>>, i: int, l: Seq<char>)
    requires
        forall|k: int| 0 <= k < ls.len() ==> line_ok(#[trigger] ls[k]),
        1 <= i < ls.len(),
        line_ok(l),
        same_data(ls[i], l),
    ensures
        ok_part(spec_from_str(text_of_lines(ls.update(i, l)))) == ok_part(
            spec_from_str(text_of_lines(ls)),
        ),
{
    let ls2 = ls.update(i, l);
    assert forall|k: int| 0 <= k < ls2.len() implies line_ok(#[trigger] ls2[k]) by {
        if k != i {
            assert(ls2[k] == ls[k]);
        }
    }
    assert forall|k: int| 1 <= k < ls.len() implies same_data(#[trigger] ls[k], ls2[k]) by {
        if k != i {
            assert(ls2[k] == ls[k]);
        }
    }
    lemma_same_data_same_model(ls, ls2);
}

/// Appending a comment to a line after the title changes neither whether
/// the text is accepted nor the model it describes.
pub proof fn lemma_comment_appended_to_line(ls: Seq<Seq<char>>, i: int, c: Seq<char>)
    requires
        forall|k: int| 0 <= k < ls.len() ==> line_ok(#[trigger] ls[k]),
        1 <= i < ls.len(),
        c.len() > 0,
        c[0] == '#',
        line_ok(ls[i] + c),
    ensures
        ok_part(spec_from_str(text_of_lines(ls.update(i, ls[i] + c)))) == ok_part(
            spec_from_str(text_of_lines(ls)),
        ),
{
    lemma_comment_appended(ls[i], c);
    lemma_line_replaced(ls, i, ls[i] + c);
}

/// Exchanging separators (commas, spaces, tabs) in a line after the title
/// that holds a field changes neither whether the text is accepted nor the
/// model it describes.
pub proof fn lemma_separators_exchanged_in_line(ls: Seq<Seq<char>>, i: int, l: Seq<char>)
    requires
        forall|k: int| 0 <= k < ls.len() ==> line_ok(#[trigger] ls[k]),
        1 <= i < ls.len(),
        line_ok(l),
        separators_exchanged(ls[i], l),
        has_field(ls[i]),
    ensures
        ok_part(spec_from_str(text_of_lines(ls.update(i, l)))) == ok_part(
            spec_from_str(text_of_lines(ls)),
        ),
{
    lemma_separators_exchanged(ls[i], l);
    lemma_line_replaced(ls, i, l);
}

// ---------------------------------------------------------------------------
// Inserted lines
// ---------------------------------------------------------------------------

proof fn lemma_all_ws_blank(s: Seq<char>)
    requires
        forall|k: int| 0 <= k < s.len() ==> is_ws(#[trigger] s[k]),
    ensures
        is_blank(s),
    decreases s.len(),
{
    if s.len() > 0 {
        assert(is_ws(s[0]));
        assert forall|k: int| 0 <= k < s.drop_first().len() implies is_ws(
            #[trigger] s.drop_first()[k],
        ) by {
            assert(s.drop_first()[k] == s[k + 1]);
        }
        lemma_all_ws_blank(s.drop_first());
        assert(trim_start(s) == trim_start(s.drop_first()));
    }
}

/// Inserting, after the title, a line that holds only whitespace (perhaps
/// none) followed by nothing or by a `#` comment changes nothing: the text
/// describes the same model, or has the same problem.
pub proof fn lemma_blank_or_comment_line_inserted(
    ls: Seq<Seq<char>>,
    i: int,
    w: Seq<char>,
    d: Seq<char>,
)
    requires
        forall|k: int| 0 <= k < ls.len() ==> line_ok(#[trigger] ls[k]),
        1 <= i <= ls.len(),
        forall|k: int| 0 <= k < w.len() ==> is_ws(#[trigger] w[k]),
        d.len() == 0 || d[0] == '#',
        line_ok(w + d),
    ensures
        spec_from_str(text_of_lines(ls.insert(i, w + d))) == spec_from_str(text_of_lines(ls)),
{
    let c = w + d;
    assert forall|k: int| 0 <= k < w.len() implies c[k] != '#' by {
        assert(c[k] == w[k]);
        assert(is_ws(w[k]));
    }
    if d.len() > 0 {
        assert(c[w.len() as int] == d[0]);
    } else {
        assert(c =~= w);
    }
    lemma_first_index(c, '#', w.len() as int);
    assert(strip_comment_spec(c) =~= w);
    lemma_all_ws_blank(w);
    crate::input_laws::lemma_comment_lines_ignored(ls, i, c);
}

// ---------------------------------------------------------------------------
// Runs of separators
// ---------------------------------------------------------------------------

/// A non-empty run of separators (commas, spaces, tabs).
pub open spec fn separator_run(r: Seq<char>) -> bool {
    r.len() > 0 && forall|k: int| 0 <= k < r.len() ==> is_separator(#[trigger] r[k])
}

/// The field being read, ended by a separator.
pub open spec fn ended(cur: Seq<char>) -> Seq<Seq<char>> {
    if cur.len() > 0 {
        seq![cur]
    } else {
        seq![]
    }
}

proof fn lemma_split_run(r: Seq<char>, y: Seq<char>, cur: Seq<char>)
    requires
        separator_run(r),
    ensures
        split_fields(r + y, cur) == ended(cur) + split_fields(y, seq![]),
    decreases r.len(),
{
    let ry = r + y;
    assert(ry[0] == r[0]);
    assert(is_separator(r[0]));
    assert(ry.drop_first() =~= r.drop_first() + y);
    if r.len() == 1 {
        assert(r.drop_first() + y =~= y);
    } else {
        assert forall|k: int| 0 <= k < r.drop_first().len() implies is_separator(
            #[trigger] r.drop_first()[k],
        ) by {
            assert(r.drop_first()[k] == r[k + 1]);
        }
        lemma_split_run(r.drop_first(), y, seq![]);
        assert(ended(Seq::<char>::empty()) + split_fields(y, seq![]) =~= split_fields(y, seq![]));
    }
}

proof fn lemma_split_prefix(x: Seq<char>, t1: Seq<char>, t2: Seq<char>, cur: Seq<char>)
    requires
        forall|c: Seq<char>| #[trigger] split_fields(t1, c) == split_fields(t2, c),
    ensures
        split_fields(x + t1, cur) == split_fields(x + t2, cur),
    decreases x.len(),
{
    if x.len() == 0 {
        assert(x + t1 =~= t1);
        assert(x + t2 =~= t2);
        assert(split_fields(t1, cur) == split_fields(t2, cur));
    } else {
        assert((x + t1)[0] == x[0] && (x + t2)[0] == x[0]);
        assert((x + t1).drop_first() =~= x.drop_first() + t1);
        assert((x + t2).drop_first() =~= x.drop_first() + t2);
        lemma_split_prefix(x.drop_first(), t1, t2, seq![]);
        lemma_split_prefix(x.drop_first(), t1, t2, cur.push(x[0]));
    }
}

proof fn lemma_first_hash_after(p: Seq<char>, q: Seq<char>)
    requires
        forall|k: int| 0 <= k < p.len() ==> #[trigger] p[k] != '#',
    ensures
        first_index(p + q, '#') == p.len() + first_index(q, '#'),
    decreases p.len(),
{
    if p.len() == 0 {
        assert(p + q =~= q);
    } else {
        assert((p + q)[0] == p[0]);
        assert((p + q).drop_first() =~= p.drop_first() + q);
        assert forall|k: int| 0 <= k < p.drop_first().len() implies #[trigger] p.drop_first()[k]
            != '#' by {
            assert(p.drop_first()[k] == p[k + 1]);
        }
        lemma_first_hash_after(p.drop_first(), q);
    }
}

/// Replacing a run of separators that follows a field by another run keeps
/// a line reading alike (`1,2` as `1 2`, `1 ,\t2` or `1,2`).
pub proof fn lemma_separator_run_replaced(x: Seq<char>, r1: Seq<char>, r2: Seq<char>, y: Seq<char>)
    requires
        forall|k: int| 0 <= k < x.len() ==> #[trigger] x[k] != '#',
        exists|k: int| 0 <= k < x.len() && field_char(#[trigger] x[k]),
        separator_run(r1),
        separator_run(r2),
    ensures
        same_data(x + r1 + y, x + r2 + y),
{
    let a = x + r1 + y;
    let b = x + r2 + y;
    let xr1 = x + r1;
    let xr2 = x + r2;
    assert forall|k: int| 0 <= k < xr1.len() implies #[trigger] xr1[k] != '#' by {
        if k >= x.len() {
            assert(xr1[k] == r1[k - x.len()]);
            assert(is_separator(r1[k - x.len()]));
        }
    }
    assert forall|k: int| 0 <= k < xr2.len() implies #[trigger] xr2[k] != '#' by {
        if k >= x.len() {
            assert(xr2[k] == r2[k - x.len()]);
            assert(is_separator(r2[k - x.len()]));
        }
    }
    lemma_first_hash_after(xr1, y);
    lemma_first_hash_after(xr2, y);
    crate::text::lemma_first_index_bound(y, '#');
    let sy = strip_comment_spec(y);
    assert(strip_comment_spec(a) =~= x + (r1 + sy));
    assert(strip_comment_spec(b) =~= x + (r2 + sy));
    assert forall|c: Seq<char>| #[trigger] split_fields(r1 + sy, c) == split_fields(r2 + sy, c) by {
        lemma_split_run(r1, sy, c);
        lemma_split_run(r2, sy, c);
    }
    lemma_split_prefix(x, r1 + sy, r2 + sy, seq![]);
    let j = choose|k: int| 0 <= k < x.len() && field_char(#[trigger] x[k]);
    assert(strip_comment_spec(a)[j] == x[j]);
    assert(strip_comment_spec(b)[j] == x[j]);
    lemma_not_all_ws(strip_comment_spec(a), j);
    lemma_not_all_ws(strip_comment_spec(b), j);
}

/// Replacing, in a line after the title, a run of separators that follows a
/// field by another run changes neither whether the text is accepted nor the
/// model it describes.
pub proof fn lemma_separator_run_replaced_in_line(
    ls: Seq<Seq<char>>,
    i: int,
    x: Seq<char>,
    r1: Seq<char>,
    r2: Seq<char>,
    y: Seq<char>,
)
    requires
        forall|k: int| 0 <= k < ls.len() ==> line_ok(#[trigger] ls[k]),
        1 <= i < ls.len(),
        ls[i] == x + r1 + y,
        line_ok(x + r2 + y),
        forall|k: int| 0 <= k < x.len() ==> #[trigger] x[k] != '#',
        exists|k: int| 0 <= k < x.len() && field_char(#[trigger] x[k]),
        separator_run(r1),
        separator_run(r2),
    ensures
        ok_part(spec_from_str(text_of_lines(ls.update(i, x + r2 + y)))) == ok_part(
            spec_from_str(text_of_lines(ls)),
        ),
{
    lemma_separator_run_replaced(x, r1, r2, y);
    lemma_line_replaced(ls, i, x + r2 + y);
}

} // verus!
