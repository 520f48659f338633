//! The reports on an analysis: JSON string literals and the layout of the
//! JSON report. The numbers come already written (floating-point formatting
//! happens where the numbers are computed); the library lays them out.
use vstd::prelude::*;

use crate::numbers::{int_text, nat_text, push_i64, push_usize};
use crate::model::NodeV;
use crate::solver::{support_count, MemberState};
use crate::text::{chars_of, lemma_text_push, push_char, push_str, text_of_lines, views};

verus! {

/// Lower-case hexadecimal digit of `d < 16`.
pub open spec fn hex_digit(d: nat) -> char {
    if d < 10 {
        (d + '0' as nat) as char
    } else {
        (d - 10 + 'a' as nat) as char
    }
}

/// Four lower-case hexadecimal digits of `v < 0x10000` (`{:04x}`).
pub open spec fn hex4(v: nat) -> Seq<char> {
    seq![
        hex_digit((v / 4096) % 16),
        hex_digit((v / 256) % 16),
        hex_digit((v / 16) % 16),
        hex_digit(v % 16),
    ]
}

/// How one character is written inside a JSON string literal.
pub open spec fn json_escape_char(c: char) -> Seq<char> {
    if c == '"' {
        seq!['\\', '"']
    } else if c == '\\' {
        seq!['\\', '\\']
    } else if c == '\n' {
        seq!['\\', 'n']
    } else if c == '\r' {
        seq!['\\', 'r']
    } else if c == '\t' {
        seq!['\\', 't']
    } else if (c as nat) < 0x20 {
        seq!['\\', 'u'] + hex4(c as nat)
    } else {
        seq![c]
    }
}

/// The characters of `s`, each escaped for a JSON string literal.
pub open spec fn json_escape(s: Seq<char>) -> Seq<char>
    decreases s.len(),
{
    if s.len() == 0 {
        seq![]
    } else {
        json_escape(s.drop_last()) + json_escape_char(s.last())
    }
}

/// `s` as a JSON string literal.
pub open spec fn json_string(s: Seq<char>) -> Seq<char> {
    seq!['"'] + json_escape(s) + seq!['"']
}

/// A JSON string literal holds no raw control character, and every `"`
/// inside it is escaped: the literal is valid JSON and ends where it should.
pub proof fn lemma_json_escape_valid(s: Seq<char>)
    ensures
        forall|i: int|
            0 <= i < json_escape(s).len() ==> (#[trigger] json_escape(s)[i] as nat) >= 0x20,
        forall|i: int|
            0 <= i < json_escape(s).len() && #[trigger] json_escape(s)[i] == '"' ==> i > 0
                && json_escape(s)[i - 1] == '\\',
    decreases s.len(),
{
    if s.len() > 0 {
        lemma_json_escape_valid(s.drop_last());
        let p = json_escape(s.drop_last());
        let c = s.last();
        let q = json_escape_char(c);
        let e = json_escape(s);
        assert(e == p + q);
        assert forall|i: int| 0 <= i < e.len() implies (#[trigger] e[i] as nat) >= 0x20 by {
            if i < p.len() {
                assert(e[i] == p[i]);
            } else {
                assert(e[i] == q[i - p.len()]);
            }
        }
        assert forall|i: int| 0 <= i < e.len() && #[trigger] e[i] == '"' implies i > 0 && e[i - 1]
            == '\\' by {
            if i < p.len() {
                assert(e[i] == p[i]);
                assert(e[i - 1] == p[i - 1]);
            } else {
                assert(e[i] == q[i - p.len()]);
                assert(i - p.len() == 1);
                assert(e[i - 1] == q[0]);
            }
        }
    }
}

/// The value of a hexadecimal digit of either case.
pub open spec fn hex_value(c: char) -> Option<nat> {
    if '0' <= c && c <= '9' {
        Some((c as nat - '0' as nat) as nat)
    } else if 'a' <= c && c <= 'f' {
        Some((c as nat - 'a' as nat + 10) as nat)
    } else if 'A' <= c && c <= 'F' {
        Some((c as nat - 'A' as nat + 10) as nat)
    } else {
        None
    }
}

/// The character that a one-letter escape `\e` stands for in JSON.
pub open spec fn json_simple_escape(e: char) -> Option<char> {
    if e == '"' {
        Some('"')
    } else if e == '\\' {
        Some('\\')
    } else if e == '/' {
        Some('/')
    } else if e == 'b' {
        Some('\u{8}')
    } else if e == 'f' {
        Some('\u{c}')
    } else if e == 'n' {
        Some('\n')
    } else if e == 'r' {
        Some('\r')
    } else if e == 't' {
        Some('\t')
    } else {
        None
    }
}

/// `seq![c] + rest`, when `rest` is a decoded text.
pub open spec fn prepend(c: char, rest: Option<Seq<char>>) -> Option<Seq<char>> {
    match rest {
        Some(r) => Some(seq![c] + r),
        None => None,
    }
}

/// The text that the inside of a JSON string literal stands for, read from
/// the front as JSON reads it; `None` when it is not valid there: a raw `"`
/// or control character, or an unknown or cut-off escape. (A `\u` escape of a
/// UTF-16 surrogate, which only a pair of escapes can stand for, is not read.)
pub open spec fn json_unescape(b: Seq<char>) -> Option<Seq<char>>
    decreases b.len(),
{
    if b.len() == 0 {
        Some(seq![])
    } else if b[0] == '\\' {
        if b.len() < 2 {
            None
        } else if json_simple_escape(b[1]) is Some {
            prepend(json_simple_escape(b[1])->0, json_unescape(b.skip(2)))
        } else if b[1] == 'u' && b.len() >= 6 && hex_value(b[2]) is Some && hex_value(b[3]) is Some
            && hex_value(b[4]) is Some && hex_value(b[5]) is Some {
            let v = 4096 * hex_value(b[2])->0 + 256 * hex_value(b[3])->0 + 16 * hex_value(b[4])->0
                + hex_value(b[5])->0;
            if 0xD800 <= v && v <= 0xDFFF {
                None
            } else {
                prepend(v as char, json_unescape(b.skip(6)))
            }
        } else {
            None
        }
    } else if b[0] == '"' || (b[0] as nat) < 0x20 {
        None
    } else {
        prepend(b[0], json_unescape(b.skip(1)))
    }
}

/// The text that a JSON string literal stands for, when it is one.
pub open spec fn json_string_value(lit: Seq<char>) -> Option<Seq<char>> {
    if lit.len() >= 2 && lit[0] == '"' && lit.last() == '"' {
        json_unescape(lit.subrange(1, lit.len() - 1))
    } else {
        None
    }
}

proof fn lemma_json_escape_front(s: Seq<char>)
    requires
        s.len() > 0,
    ensures
        json_escape(s) == json_escape_char(s[0]) + json_escape(s.drop_first()),
    decreases s.len(),
{
    if s.len() == 1 {
        assert(s.drop_last() =~= Seq::<char>::empty());
        assert(s.drop_first() =~= Seq::<char>::empty());
        assert(json_escape(s.drop_last()) =~= Seq::<char>::empty());
        assert(json_escape(s.drop_first()) =~= Seq::<char>::empty());
        assert(s.last() == s[0]);
        assert(json_escape(s) =~= json_escape_char(s[0]));
        assert(json_escape_char(s[0]) + Seq::<char>::empty() =~= json_escape_char(s[0]));
    } else {
        lemma_json_escape_front(s.drop_last());
        assert(s.drop_last().drop_first() =~= s.drop_first().drop_last());
        assert(s.drop_first().last() == s.last());
        assert(s.drop_last()[0] == s[0]);
        assert(json_escape_char(s[0]) + json_escape(s.drop_last().drop_first()) + json_escape_char(
            s.last(),
        ) =~= json_escape_char(s[0]) + (json_escape(s.drop_first().drop_last()) + json_escape_char(
            s.drop_first().last(),
        )));
    }
}

proof fn lemma_hex_digit_value(d: nat)
    requires
        d < 16,
    ensures
        hex_value(hex_digit(d)) == Some(d),
{
}

proof fn lemma_unescape_char(c: char, rest: Seq<char>)
    ensures
        json_unescape(json_escape_char(c) + rest) == prepend(c, json_unescape(rest)),
{
    let e = json_escape_char(c);
    let b = e + rest;
    if c == '"' || c == '\\' || c == '\n' || c == '\r' || c == '\t' {
        assert(b[0] == '\\' && b[1] == e[1]);
        assert(b.skip(2) =~= rest);
    } else if (c as nat) < 0x20 {
        let v = c as nat;
        lemma_hex_digit_value((v / 4096) % 16);
        lemma_hex_digit_value((v / 256) % 16);
        lemma_hex_digit_value((v / 16) % 16);
        lemma_hex_digit_value(v % 16);
        assert(b[0] == '\\' && b[1] == 'u');
        assert(b[2] == hex_digit((v / 4096) % 16) && b[3] == hex_digit((v / 256) % 16));
        assert(b[4] == hex_digit((v / 16) % 16) && b[5] == hex_digit(v % 16));
        assert(4096 * ((v / 4096) % 16) + 256 * ((v / 256) % 16) + 16 * ((v / 16) % 16) + v % 16
            == v);
        assert(b.skip(6) =~= rest);
    } else {
        assert(b[0] == c);
        assert(b.skip(1) =~= rest);
    }
}

proof fn lemma_unescape_escape(s: Seq<char>)
    ensures
        json_unescape(json_escape(s)) == Some(s),
    decreases s.len(),
{
    if s.len() == 0 {
        assert(json_escape(s) =~= Seq::<char>::empty());
    } else {
        lemma_json_escape_front(s);
        lemma_unescape_escape(s.drop_first());
        lemma_unescape_char(s[0], json_escape(s.drop_first()));
        assert(seq![s[0]] + s.drop_first() =~= s);
    }
}

/// Reading the JSON string literal that `json_str` writes for `s` gives back `s`.
pub proof fn lemma_json_string_reads_back(s: Seq<char>)
    ensures
        json_string_value(json_string(s)) == Some(s),
{
    let lit = json_string(s);
    lemma_unescape_escape(s);
    assert(lit.subrange(1, lit.len() - 1) =~= json_escape(s));
}

fn hex_char(d: u32) -> (c: char)
    requires
        d < 16,
    ensures
        c == hex_digit(d as nat),
{
    if d < 10 {
        ((d as u8) + 48) as char
    } else {
        ((d as u8) - 10 + 97) as char
    }
}

fn push_escaped(out: &mut String, c: char)
    ensures
        final(out)@ == old(out)@ + json_escape_char(c),
{
    if c == '"' {
        push_str(out, "\\\"");
        proof {
            reveal_strlit("\\\"");
        }
    } else if c == '\\' {
        push_str(out, "\\\\");
        proof {
            reveal_strlit("\\\\");
        }
    } else if c == '\n' {
        push_str(out, "\\n");
        proof {
            reveal_strlit("\\n");
        }
    } else if c == '\r' {
        push_str(out, "\\r");
        proof {
            reveal_strlit("\\r");
        }
    } else if c == '\t' {
        push_str(out, "\\t");
        proof {
            reveal_strlit("\\t");
        }
    } else if (c as u32) < 0x20 {
        let v = c as u32;
        push_char(out, '\\');
        push_char(out, 'u');
        push_char(out, hex_char((v / 4096) % 16));
        push_char(out, hex_char((v / 256) % 16));
        push_char(out, hex_char((v / 16) % 16));
        push_char(out, hex_char(v % 16));
    } else {
        push_char(out, c);
    }
    assert(out@ =~= old(out)@ + json_escape_char(c));
}

/// Encode a string as a JSON string literal with the necessary escapes.
pub fn json_str(s: &str) -> (out: String)
    ensures
        out@ == json_string(s@),
{
    let chars = chars_of(s);
    let mut out = String::new();
    push_char(&mut out, '"');
    let mut i: usize = 0;
    assert(chars@.take(0) =~= Seq::<char>::empty());
    while i < chars.len()
        invariant
            i <= chars.len(),
            out@ == seq!['"'] + json_escape(chars@.take(i as int)),
        decreases chars.len() - i,
    {
        push_escaped(&mut out, chars[i]);
        assert(chars@.take(i + 1).drop_last() =~= chars@.take(i as int));
        assert(chars@.take(i + 1).last() == chars@[i as int]);
        i += 1;
    }
    assert(chars@.take(chars.len() as int) =~= chars@);
    push_char(&mut out, '"');
    out
}

// ---------------------------------------------------------------------------
// The JSON report
// ---------------------------------------------------------------------------

/// One node of the JSON report; every real value is already JSON text.
#[derive(Debug)]
pub struct JsonNode {
    pub id: i64,
    pub coord: [String; 3],
    pub fixed: [bool; 3],
    pub load: [String; 3],
    pub displacement: [String; 3],
    pub reaction: [String; 3],
}

/// One element of the JSON report; every real value is already JSON text.
#[derive(Debug)]
pub struct JsonElement {
    pub id: i64,
    pub node_ids: [i64; 2],
    pub length: String,
    pub axial_force: String,
    pub stress: String,
    pub strain: String,
    pub elongation: String,
    pub state: MemberState,
}

/// The content of the JSON report.
#[derive(Debug)]
pub struct JsonDocument {
    pub title: String,
    pub planar: bool,
    pub max_abs_displacement: String,
    pub nodes: Vec<JsonNode>,
    pub elements: Vec<JsonElement>,
}

pub struct JsonNodeV {
    pub id: i64,
    pub coord: Seq<Seq<char>>,
    pub fixed: Seq<bool>,
    pub load: Seq<Seq<char>>,
    pub displacement: Seq<Seq<char>>,
    pub reaction: Seq<Seq<char>>,
}

pub struct JsonElementV {
    pub id: i64,
    pub node_ids: Seq<i64>,
    pub length: Seq<char>,
    pub axial_force: Seq<char>,
    pub stress: Seq<char>,
    pub strain: Seq<char>,
    pub elongation: Seq<char>,
    pub state: MemberState,
}

pub struct JsonDocumentV {
    pub title: Seq<char>,
    pub planar: bool,
    pub max_abs_displacement: Seq<char>,
    pub nodes: Seq<JsonNodeV>,
    pub elements: Seq<JsonElementV>,
}

impl View for JsonNode {
    type V = JsonNodeV;

    open spec fn view(&self) -> JsonNodeV {
        JsonNodeV {
            id: self.id,
            coord: views(self.coord@),
            fixed: self.fixed@,
            load: views(self.load@),
            displacement: views(self.displacement@),
            reaction: views(self.reaction@),
        }
    }
}

impl View for JsonElement {
    type V = JsonElementV;

    open spec fn view(&self) -> JsonElementV {
        JsonElementV {
            id: self.id,
            node_ids: self.node_ids@,
            length: self.length@,
            axial_force: self.axial_force@,
            stress: self.stress@,
            strain: self.strain@,
            elongation: self.elongation@,
            state: self.state,
        }
    }
}

impl View for JsonDocument {
    type V = JsonDocumentV;

    open spec fn view(&self) -> JsonDocumentV {
        JsonDocumentV {
            title: self.title@,
            planar: self.planar,
            max_abs_displacement: self.max_abs_displacement@,
            nodes: self.nodes@.map_values(|n: JsonNode| n@),
            elements: self.elements@.map_values(|e: JsonElement| e@),
        }
    }
}

/// `true` or `false`.
pub open spec fn bool_text(b: bool) -> Seq<char> {
    if b {
        "true"@
    } else {
        "false"@
    }
}

/// `[a, b, c]`
pub open spec fn json_triple(a: Seq<char>, b: Seq<char>, c: Seq<char>) -> Seq<char> {
    "["@ + a + ", "@ + b + ", "@ + c + "]"@
}

/// The label of a member state (`tension`, `compression`, `zero-force`).
pub open spec fn state_label(s: MemberState) -> Seq<char> {
    match s {
        MemberState::Tension => "tension"@,
        MemberState::Compression => "compression"@,
        MemberState::ZeroForce => "zero-force"@,
    }
}

/// `,` after every entry but the last one.
pub open spec fn list_comma(last: bool) -> Seq<char> {
    if last {
        seq![]
    } else {
        seq![',']
    }
}

/// The line of one node in the JSON report.
pub open spec fn json_node_line(n: JsonNodeV, last: bool) -> Seq<char> {
    "    { \"id\": "@ + int_text(n.id as int) + ", \"coord\": "@ + json_triple(
        n.coord[0],
        n.coord[1],
        n.coord[2],
    ) + ", \"fixed\": "@ + json_triple(
        bool_text(n.fixed[0]),
        bool_text(n.fixed[1]),
        bool_text(n.fixed[2]),
    ) + ", \"load\": "@ + json_triple(n.load[0], n.load[1], n.load[2]) + ", \"displacement\": "@
        + json_triple(n.displacement[0], n.displacement[1], n.displacement[2]) + ", \"reaction\": "@
        + json_triple(n.reaction[0], n.reaction[1], n.reaction[2]) + " }"@ + list_comma(last)
        + seq!['\n']
}

/// The line of one element in the JSON report.
pub open spec fn json_element_line(e: JsonElementV, last: bool) -> Seq<char> {
    "    { \"id\": "@ + int_text(e.id as int) + ", \"nodes\": ["@ + int_text(e.node_ids[0] as int)
        + ", "@ + int_text(e.node_ids[1] as int) + "], \"length\": "@ + e.length
        + ", \"axialForce\": "@ + e.axial_force + ", \"stress\": "@ + e.stress + ", \"strain\": "@
        + e.strain + ", \"elongation\": "@ + e.elongation + ", \"state\": "@ + json_string(
        state_label(e.state),
    ) + " }"@ + list_comma(last) + seq!['\n']
}

/// The lines of the first `k` nodes.
pub open spec fn json_node_lines(ns: Seq<JsonNodeV>, k: nat) -> Seq<char>
    decreases k,
{
    if k == 0 {
        seq![]
    } else {
        json_node_lines(ns, (k - 1) as nat) + json_node_line(ns[k - 1], k == ns.len())
    }
}

/// The lines of the first `k` elements.
pub open spec fn json_element_lines(es: Seq<JsonElementV>, k: nat) -> Seq<char>
    decreases k,
{
    if k == 0 {
        seq![]
    } else {
        json_element_lines(es, (k - 1) as nat) + json_element_line(es[k - 1], k == es.len())
    }
}

/// The JSON report: title, planarity, largest displacement, nodes, elements.
pub open spec fn spec_json_report(d: JsonDocumentV) -> Seq<char> {
    "{\n"@ + "  \"title\": "@ + json_string(d.title) + ",\n"@ + "  \"planar\": "@ + bool_text(
        d.planar,
    ) + ",\n"@ + "  \"maxAbsDisplacement\": "@ + d.max_abs_displacement + ",\n"@
        + "  \"nodes\": [\n"@ + json_node_lines(d.nodes, d.nodes.len()) + "  ],\n"@
        + "  \"elements\": [\n"@ + json_element_lines(d.elements, d.elements.len()) + "  ]\n"@
        + "}\n"@
}

fn push_bool(s: &mut String, b: bool)
    ensures
        final(s)@ == old(s)@ + bool_text(b),
{
    if b {
        push_str(s, "true");
    } else {
        push_str(s, "false");
    }
}

fn push_triple(s: &mut String, a: &str, b: &str, c: &str)
    ensures
        final(s)@ == old(s)@ + json_triple(a@, b@, c@),
{
    push_str(s, "[");
    push_str(s, a);
    push_str(s, ", ");
    push_str(s, b);
    push_str(s, ", ");
    push_str(s, c);
    push_str(s, "]");
    assert(s@ =~= old(s)@ + json_triple(a@, b@, c@));
}

fn push_bool_triple(s: &mut String, f: &[bool; 3])
    ensures
        final(s)@ == old(s)@ + json_triple(bool_text(f@[0]), bool_text(f@[1]), bool_text(f@[2])),
{
    push_str(s, "[");
    push_bool(s, f[0]);
    push_str(s, ", ");
    push_bool(s, f[1]);
    push_str(s, ", ");
    push_bool(s, f[2]);
    push_str(s, "]");
    assert(s@ =~= old(s)@ + json_triple(bool_text(f@[0]), bool_text(f@[1]), bool_text(f@[2])));
}

fn push_comma(s: &mut String, last: bool)
    ensures
        final(s)@ == old(s)@ + list_comma(last),
{
    if !last {
        push_char(s, ',');
    } else {
        assert(s@ =~= old(s)@ + list_comma(last));
    }
}

fn json_node_text(n: &JsonNode, last: bool) -> (s: String)
    ensures
        s@ == json_node_line(n@, last),
{
    let mut s = String::new();
    push_str(&mut s, "    { \"id\": ");
    push_i64(&mut s, n.id);
    push_str(&mut s, ", \"coord\": ");
    push_triple(&mut s, n.coord[0].as_str(), n.coord[1].as_str(), n.coord[2].as_str());
    push_str(&mut s, ", \"fixed\": ");
    push_bool_triple(&mut s, &n.fixed);
    push_str(&mut s, ", \"load\": ");
    push_triple(&mut s, n.load[0].as_str(), n.load[1].as_str(), n.load[2].as_str());
    push_str(&mut s, ", \"displacement\": ");
    push_triple(
        &mut s,
        n.displacement[0].as_str(),
        n.displacement[1].as_str(),
        n.displacement[2].as_str(),
    );
    push_str(&mut s, ", \"reaction\": ");
    push_triple(&mut s, n.reaction[0].as_str(), n.reaction[1].as_str(), n.reaction[2].as_str());
    push_str(&mut s, " }");
    push_comma(&mut s, last);
    push_char(&mut s, '\n');
    assert(s@ =~= json_node_line(n@, last));
    s
}

fn json_element_text(e: &JsonElement, last: bool) -> (s: String)
    ensures
        s@ == json_element_line(e@, last),
{
    let mut s = String::new();
    push_str(&mut s, "    { \"id\": ");
    push_i64(&mut s, e.id);
    push_str(&mut s, ", \"nodes\": [");
    push_i64(&mut s, e.node_ids[0]);
    push_str(&mut s, ", ");
    push_i64(&mut s, e.node_ids[1]);
    push_str(&mut s, "], \"length\": ");
    push_str(&mut s, e.length.as_str());
    push_str(&mut s, ", \"axialForce\": ");
    push_str(&mut s, e.axial_force.as_str());
    push_str(&mut s, ", \"stress\": ");
    push_str(&mut s, e.stress.as_str());
    push_str(&mut s, ", \"strain\": ");
    push_str(&mut s, e.strain.as_str());
    push_str(&mut s, ", \"elongation\": ");
    push_str(&mut s, e.elongation.as_str());
    push_str(&mut s, ", \"state\": ");
    let label = json_str(e.state.label());
    push_str(&mut s, label.as_str());
    push_str(&mut s, " }");
    push_comma(&mut s, last);
    push_char(&mut s, '\n');
    assert(s@ =~= json_element_line(e@, last));
    s
}

/// Render the analysis as pretty-printed JSON.
pub fn json_report(doc: &JsonDocument) -> (s: String)
    ensures
        s@ == spec_json_report(doc@),
{
    let ghost d = doc@;
    let mut s = String::new();
    push_str(&mut s, "{\n");
    push_str(&mut s, "  \"title\": ");
    let title = json_str(doc.title.as_str());
    push_str(&mut s, title.as_str());
    push_str(&mut s, ",\n");
    push_str(&mut s, "  \"planar\": ");
    push_bool(&mut s, doc.planar);
    push_str(&mut s, ",\n");
    push_str(&mut s, "  \"maxAbsDisplacement\": ");
    push_str(&mut s, doc.max_abs_displacement.as_str());
    push_str(&mut s, ",\n");
    push_str(&mut s, "  \"nodes\": [\n");
    let ghost head = s@;
    let mut i: usize = 0;
    assert(head =~= head + json_node_lines(d.nodes, 0));
    while i < doc.nodes.len()
        invariant
            i <= doc.nodes.len(),
            d == doc@,
            s@ == head + json_node_lines(d.nodes, i as nat),
        decreases doc.nodes.len() - i,
    {
        assert(doc.nodes@[i as int]@ == d.nodes[i as int]);
        let line = json_node_text(&doc.nodes[i], i + 1 == doc.nodes.len());
        push_str(&mut s, line.as_str());
        assert(s@ =~= head + json_node_lines(d.nodes, (i + 1) as nat));
        i += 1;
    }
    push_str(&mut s, "  ],\n");
    push_str(&mut s, "  \"elements\": [\n");
    let ghost mid = s@;
    let mut i: usize = 0;
    assert(mid =~= mid + json_element_lines(d.elements, 0));
    while i < doc.elements.len()
        invariant
            i <= doc.elements.len(),
            d == doc@,
            s@ == mid + json_element_lines(d.elements, i as nat),
        decreases doc.elements.len() - i,
    {
        assert(doc.elements@[i as int]@ == d.elements[i as int]);
        let line = json_element_text(&doc.elements[i], i + 1 == doc.elements.len());
        push_str(&mut s, line.as_str());
        assert(s@ =~= mid + json_element_lines(d.elements, (i + 1) as nat));
        i += 1;
    }
    push_str(&mut s, "  ]\n");
    push_str(&mut s, "}\n");
    assert(s@ =~= spec_json_report(d));
    s
}

// ---------------------------------------------------------------------------
// The text report
// ---------------------------------------------------------------------------

/// One node of the text report: displacements (`{:.6e}`) and reactions
/// (`{:.4}`) already written.
#[derive(Debug)]
pub struct TextNode {
    pub id: i64,
    pub fixed: [bool; 3],
    pub displacement: [String; 3],
    pub reaction: [String; 3],
}

/// One element of the text report: length, axial force and stress
/// (`{:.4}`) already written.
#[derive(Debug)]
pub struct TextElement {
    pub id: i64,
    pub node_ids: [i64; 2],
    pub length: String,
    pub axial_force: String,
    pub stress: String,
    pub state: MemberState,
}

/// The content of the text report.
#[derive(Debug)]
pub struct TextDocument {
    pub title: String,
    pub planar: bool,
    pub node_count: usize,
    pub element_count: usize,
    /// The largest displacement, written `{:.6e}`.
    pub max_abs_displacement: String,
    pub nodes: Vec<TextNode>,
    pub elements: Vec<TextElement>,
}

pub struct TextNodeV {
    pub id: i64,
    pub fixed: Seq<bool>,
    pub displacement: Seq<Seq<char>>,
    pub reaction: Seq<Seq<char>>,
}

pub struct TextElementV {
    pub id: i64,
    pub node_ids: Seq<i64>,
    pub length: Seq<char>,
    pub axial_force: Seq<char>,
    pub stress: Seq<char>,
    pub state: MemberState,
}

pub struct TextDocumentV {
    pub title: Seq<char>,
    pub planar: bool,
    pub node_count: nat,
    pub element_count: nat,
    pub max_abs_displacement: Seq<char>,
    pub nodes: Seq<TextNodeV>,
    pub elements: Seq<TextElementV>,
}

impl View for TextNode {
    type V = TextNodeV;

    open spec fn view(&self) -> TextNodeV {
        TextNodeV {
            id: self.id,
            fixed: self.fixed@,
            displacement: views(self.displacement@),
            reaction: views(self.reaction@),
        }
    }
}

impl View for TextElement {
    type V = TextElementV;

    open spec fn view(&self) -> TextElementV {
        TextElementV {
            id: self.id,
            node_ids: self.node_ids@,
            length: self.length@,
            axial_force: self.axial_force@,
            stress: self.stress@,
            state: self.state,
        }
    }
}

impl View for TextDocument {
    type V = TextDocumentV;

    open spec fn view(&self) -> TextDocumentV {
        TextDocumentV {
            title: self.title@,
            planar: self.planar,
            node_count: self.node_count as nat,
            element_count: self.element_count as nat,
            max_abs_displacement: self.max_abs_displacement@,
            nodes: self.nodes@.map_values(|n: TextNode| n@),
            elements: self.elements@.map_values(|e: TextElement| e@),
        }
    }
}

/// `n` spaces.
pub open spec fn spaces(n: nat) -> Seq<char> {
    Seq::new(n, |i: int| ' ')
}

/// `s` right-aligned in a field of `w` characters (`{:>w}`).
pub open spec fn pad_left(s: Seq<char>, w: nat) -> Seq<char> {
    if s.len() < w {
        spaces((w - s.len()) as nat) + s
    } else {
        s
    }
}

/// A row of four right-aligned columns: `  {:>5}  {:>14}  {:>14}  {:>14}`.
pub open spec fn row4(a: Seq<char>, b: Seq<char>, c: Seq<char>, d: Seq<char>) -> Seq<char> {
    "  "@ + pad_left(a, 5) + "  "@ + pad_left(b, 14) + "  "@ + pad_left(c, 14) + "  "@ + pad_left(
        d,
        14,
    )
}

/// A row of the element table:
/// `  {:>5}  {:>5} {:>5}  {:>12}  {:>14}  {:>14}  {:>12}`.
pub open spec fn element_row(
    id: Seq<char>,
    a: Seq<char>,
    b: Seq<char>,
    len: Seq<char>,
    force: Seq<char>,
    stress: Seq<char>,
    state: Seq<char>,
) -> Seq<char> {
    "  "@ + pad_left(id, 5) + "  "@ + pad_left(a, 5) + " "@ + pad_left(b, 5) + "  "@ + pad_left(
        len,
        12,
    ) + "  "@ + pad_left(force, 14) + "  "@ + pad_left(stress, 14) + "  "@ + pad_left(state, 12)
}

pub open spec fn displacement_row(n: TextNodeV) -> Seq<char> {
    row4(int_text(n.id as int), n.displacement[0], n.displacement[1], n.displacement[2])
}

pub open spec fn reaction_row(n: TextNodeV) -> Seq<char> {
    row4(int_text(n.id as int), n.reaction[0], n.reaction[1], n.reaction[2])
}

pub open spec fn element_line_of(e: TextElementV) -> Seq<char> {
    element_row(
        int_text(e.id as int),
        int_text(e.node_ids[0] as int),
        int_text(e.node_ids[1] as int),
        e.length,
        e.axial_force,
        e.stress,
        state_label(e.state),
    )
}

/// The displacement rows of all nodes.
pub open spec fn displacement_rows(ns: Seq<TextNodeV>) -> Seq<Seq<char>> {
    ns.map_values(|n: TextNodeV| displacement_row(n))
}

/// The reaction rows of the supported nodes (at least one fixed axis).
pub open spec fn reaction_rows(ns: Seq<TextNodeV>) -> Seq<Seq<char>>
    decreases ns.len(),
{
    if ns.len() == 0 {
        seq![]
    } else {
        let rest = reaction_rows(ns.drop_last());
        let n = ns.last();
        if n.fixed[0] || n.fixed[1] || n.fixed[2] {
            rest.push(reaction_row(n))
        } else {
            rest
        }
    }
}

/// The reactions table of the text report has one row per support that the
/// model summary counts (nodes with at least one fixed axis).
pub proof fn lemma_reaction_rows_are_supports(ns: Seq<TextNodeV>, nodes: Seq<NodeV>)
    requires
        ns.len() == nodes.len(),
        forall|i: int| 0 <= i < ns.len() ==> #[trigger] ns[i].fixed == nodes[i].fixed,
    ensures
        reaction_rows(ns).len() == support_count(nodes),
    decreases ns.len(),
{
    if ns.len() > 0 {
        assert forall|i: int| 0 <= i < ns.drop_last().len() implies #[trigger] ns.drop_last()[i].fixed
            == nodes.drop_last()[i].fixed by {
            assert(ns.drop_last()[i] == ns[i] && nodes.drop_last()[i] == nodes[i]);
        }
        lemma_reaction_rows_are_supports(ns.drop_last(), nodes.drop_last());
        assert(ns.last().fixed == nodes.last().fixed) by {
            assert(ns[ns.len() - 1].fixed == nodes[nodes.len() - 1].fixed);
        }
    }
}

pub open spec fn element_rows(es: Seq<TextElementV>) -> Seq<Seq<char>> {
    es.map_values(|e: TextElementV| element_line_of(e))
}

pub open spec fn rule_line() -> Seq<char> {
    "============================================================"@
}

/// The lines of the text report.
pub open spec fn report_lines(d: TextDocumentV) -> Seq<Seq<char>> {
    seq![
        rule_line(),
        " Truss FEM Analysis Report"@,
        rule_line(),
        " Title      : "@ + d.title,
        " Type       : "@ + (if d.planar {
            "2D (planar)"@
        } else {
            "3D (space)"@
        }) + " truss"@,
        " Nodes      : "@ + nat_text(d.node_count),
        " Elements   : "@ + nat_text(d.element_count),
        " Max |disp| : "@ + d.max_abs_displacement,
        seq![],
        "-- Nodal Displacements ------------------------------------"@,
        row4("Node"@, "Ux"@, "Uy"@, "Uz"@),
    ] + displacement_rows(d.nodes) + seq![
        seq![],
        "-- Support Reactions --------------------------------------"@,
        row4("Node"@, "Rx"@, "Ry"@, "Rz"@),
    ] + reaction_rows(d.nodes) + seq![
        seq![],
        "-- Element Forces -----------------------------------------"@,
        element_row(
            "Elem"@,
            "A"@,
            "B"@,
            "Length"@,
            "Axial Force"@,
            "Stress"@,
            "State"@,
        ),
    ] + element_rows(d.elements) + seq![
        seq![],
        " Sign convention: axial force/stress > 0 = tension, < 0 = compression."@,
        rule_line(),
    ]
}

/// The text report: its lines, each ended by a line feed.
pub open spec fn spec_text_report(d: TextDocumentV) -> Seq<char> {
    text_of_lines(report_lines(d))
}

/// Appends `t` right-aligned in a field of `w` characters.
fn push_padded(s: &mut String, t: &str, w: usize)
    ensures
        final(s)@ == old(s)@ + pad_left(t@, w as nat),
{
    let n = t.unicode_len();
    if n < w {
        let mut k: usize = 0;
        while k < w - n
            invariant
                k <= w - n,
                s@ == old(s)@ + spaces(k as nat),
            decreases w - n - k,
        {
            push_char(s, ' ');
            assert(spaces((k + 1) as nat) =~= spaces(k as nat).push(' '));
            k += 1;
        }
    }
    push_str(s, t);
    assert(s@ =~= old(s)@ + pad_left(t@, w as nat));
}

fn push_padded_i64(s: &mut String, x: i64, w: usize)
    ensures
        final(s)@ == old(s)@ + pad_left(int_text(x as int), w as nat),
{
    let mut t = String::new();
    push_i64(&mut t, x);
    push_padded(s, t.as_str(), w);
}

fn row4_text(a: &str, b: &str, c: &str, d: &str) -> (s: String)
    ensures
        s@ == row4(a@, b@, c@, d@),
{
    let mut s = String::new();
    push_str(&mut s, "  ");
    push_padded(&mut s, a, 5);
    push_str(&mut s, "  ");
    push_padded(&mut s, b, 14);
    push_str(&mut s, "  ");
    push_padded(&mut s, c, 14);
    push_str(&mut s, "  ");
    push_padded(&mut s, d, 14);
    assert(s@ =~= row4(a@, b@, c@, d@));
    s
}

fn element_row_text(
    id: &str,
    a: &str,
    b: &str,
    len: &str,
    force: &str,
    stress: &str,
    state: &str,
) -> (s: String)
    ensures
        s@ == element_row(id@, a@, b@, len@, force@, stress@, state@),
{
    let mut s = String::new();
    push_str(&mut s, "  ");
    push_padded(&mut s, id, 5);
    push_str(&mut s, "  ");
    push_padded(&mut s, a, 5);
    push_str(&mut s, " ");
    push_padded(&mut s, b, 5);
    push_str(&mut s, "  ");
    push_padded(&mut s, len, 12);
    push_str(&mut s, "  ");
    push_padded(&mut s, force, 14);
    push_str(&mut s, "  ");
    push_padded(&mut s, stress, 14);
    push_str(&mut s, "  ");
    push_padded(&mut s, state, 12);
    assert(s@ =~= element_row(id@, a@, b@, len@, force@, stress@, state@));
    s
}

fn int_string(x: i64) -> (s: String)
    ensures
        s@ == int_text(x as int),
{
    let mut s = String::new();
    push_i64(&mut s, x);
    s
}

/// Appends a line and its line feed, and records it.
fn push_line(s: &mut String, line: &str, Ghost(done): Ghost<Seq<Seq<char>>>)
    requires
        old(s)@ == text_of_lines(done),
    ensures
        final(s)@ == text_of_lines(done.push(line@)),
{
    push_str(s, line);
    push_char(s, '\n');
    proof {
        lemma_text_push(done, line@);
    }
}

/// Render a clean, aligned plain-text report.
pub fn text_report(doc: &TextDocument) -> (s: String)
    ensures
        s@ == spec_text_report(doc@),
{
    let ghost d = doc@;
    let ghost all = report_lines(d);
    let ghost nn: int = d.nodes.len() as int;
    let ghost nr: int = reaction_rows(d.nodes).len() as int;
    let mut s = String::new();
    let ghost mut done: Seq<Seq<char>> = seq![];
    let rule = "============================================================";
    push_line(&mut s, rule, Ghost(done));
    proof { done = done.push(rule@); }
    push_line(&mut s, " Truss FEM Analysis Report", Ghost(done));
    proof { done = done.push(" Truss FEM Analysis Report"@); }
    push_line(&mut s, rule, Ghost(done));
    proof { done = done.push(rule@); }
    let mut line = String::new();
    push_str(&mut line, " Title      : ");
    push_str(&mut line, doc.title.as_str());
    push_line(&mut s, line.as_str(), Ghost(done));
    proof { done = done.push(line@); }
    let mut line = String::new();
    push_str(&mut line, " Type       : ");
    if doc.planar {
        push_str(&mut line, "2D (planar)");
    } else {
        push_str(&mut line, "3D (space)");
    }
    push_str(&mut line, " truss");
    push_line(&mut s, line.as_str(), Ghost(done));
    proof { done = done.push(line@); }
    let mut line = String::new();
    push_str(&mut line, " Nodes      : ");
    push_usize(&mut line, doc.node_count);
    push_line(&mut s, line.as_str(), Ghost(done));
    proof { done = done.push(line@); }
    let mut line = String::new();
    push_str(&mut line, " Elements   : ");
    push_usize(&mut line, doc.element_count);
    push_line(&mut s, line.as_str(), Ghost(done));
    proof { done = done.push(line@); }
    let mut line = String::new();
    push_str(&mut line, " Max |disp| : ");
    push_str(&mut line, doc.max_abs_displacement.as_str());
    push_line(&mut s, line.as_str(), Ghost(done));
    proof { done = done.push(line@); }
    let empty = String::new();
    push_line(&mut s, empty.as_str(), Ghost(done));
    proof { done = done.push(empty@); }
    push_line(&mut s, "-- Nodal Displacements ------------------------------------", Ghost(done));
    proof { done = done.push("-- Nodal Displacements ------------------------------------"@); }
    let header = row4_text("Node", "Ux", "Uy", "Uz");
    push_line(&mut s, header.as_str(), Ghost(done));
    proof {
        done = done.push(header@);
        assert(done =~= all.take(11));
    }
    let mut i: usize = 0;
    while i < doc.nodes.len()
        invariant
            i <= doc.nodes.len(),
            d == doc@,
            all == report_lines(d),
            nn == d.nodes.len(),
            done == all.take(11 + i),
            s@ == text_of_lines(done),
        decreases doc.nodes.len() - i,
    {
        let n = &doc.nodes[i];
        assert(doc.nodes@[i as int]@ == d.nodes[i as int]);
        let id = int_string(n.id);
        let row = row4_text(
            id.as_str(),
            n.displacement[0].as_str(),
            n.displacement[1].as_str(),
            n.displacement[2].as_str(),
        );
        push_line(&mut s, row.as_str(), Ghost(done));
        proof {
            assert(all[11 + i] == row@);
            assert(done.push(row@) =~= all.take(11 + i + 1));
            done = done.push(row@);
        }
        i += 1;
    }
    let empty = String::new();
    push_line(&mut s, empty.as_str(), Ghost(done));
    proof { done = done.push(empty@); }
    push_line(&mut s, "-- Support Reactions --------------------------------------", Ghost(done));
    proof { done = done.push("-- Support Reactions --------------------------------------"@); }
    let header = row4_text("Node", "Rx", "Ry", "Rz");
    push_line(&mut s, header.as_str(), Ghost(done));
    proof {
        done = done.push(header@);
        assert(done =~= all.take(14 + nn));
    }
    let ghost base = done;
    let mut i: usize = 0;
    assert(d.nodes.take(0) =~= Seq::<TextNodeV>::empty());
    while i < doc.nodes.len()
        invariant
            i <= doc.nodes.len(),
            d == doc@,
            base == all.take(14 + nn),
            nn == d.nodes.len(),
            done == base + reaction_rows(d.nodes.take(i as int)),
            s@ == text_of_lines(done),
        decreases doc.nodes.len() - i,
    {
        let n = &doc.nodes[i];
        assert(doc.nodes@[i as int]@ == d.nodes[i as int]);
        assert(d.nodes.take(i + 1).drop_last() =~= d.nodes.take(i as int));
        assert(d.nodes.take(i + 1).last() == d.nodes[i as int]);
        if n.fixed[0] || n.fixed[1] || n.fixed[2] {
            let id = int_string(n.id);
            let row = row4_text(
                id.as_str(),
                n.reaction[0].as_str(),
                n.reaction[1].as_str(),
                n.reaction[2].as_str(),
            );
            push_line(&mut s, row.as_str(), Ghost(done));
            proof {
                assert(done.push(row@) =~= base + reaction_rows(d.nodes.take(i + 1)));
                done = done.push(row@);
            }
        }
        i += 1;
    }
    assert(d.nodes.take(nn) =~= d.nodes);
    let empty = String::new();
    push_line(&mut s, empty.as_str(), Ghost(done));
    proof { done = done.push(empty@); }
    push_line(&mut s, "-- Element Forces -----------------------------------------", Ghost(done));
    proof { done = done.push("-- Element Forces -----------------------------------------"@); }
    let header = element_row_text("Elem", "A", "B", "Length", "Axial Force", "Stress", "State");
    push_line(&mut s, header.as_str(), Ghost(done));
    proof {
        done = done.push(header@);
        assert(done =~= all.take(17 + nn + nr));
    }
    let mut i: usize = 0;
    while i < doc.elements.len()
        invariant
            i <= doc.elements.len(),
            d == doc@,
            all == report_lines(d),
            nn == d.nodes.len(),
            nr == reaction_rows(d.nodes).len(),
            done == all.take(17 + nn + nr + i),
            s@ == text_of_lines(done),
        decreases doc.elements.len() - i,
    {
        let e = &doc.elements[i];
        assert(doc.elements@[i as int]@ == d.elements[i as int]);
        let id = int_string(e.id);
        let a = int_string(e.node_ids[0]);
        let b = int_string(e.node_ids[1]);
        let row = element_row_text(
            id.as_str(),
            a.as_str(),
            b.as_str(),
            e.length.as_str(),
            e.axial_force.as_str(),
            e.stress.as_str(),
            e.state.label(),
        );
        push_line(&mut s, row.as_str(), Ghost(done));
        proof {
            assert(all[17 + nn + nr + i] == row@);
            assert(done.push(row@) =~= all.take(17 + nn + nr + i + 1));
            done = done.push(row@);
        }
        i += 1;
    }
    let empty = String::new();
    push_line(&mut s, empty.as_str(), Ghost(done));
    proof { done = done.push(empty@); }
    let sign = " Sign convention: axial force/stress > 0 = tension, < 0 = compression.";
    push_line(&mut s, sign, Ghost(done));
    proof { done = done.push(sign@); }
    push_line(&mut s, rule, Ghost(done));
    proof {
        done = done.push(rule@);
        assert(done =~= all);
    }
    s
}

/// The name of a member state, as the reports write it.
pub open spec fn state_name(s: MemberState) -> Seq<char> {
    match s {
        MemberState::Tension => "tension"@,
        MemberState::Compression => "compression"@,
        MemberState::ZeroForce => "zero-force"@,
    }
}

proof fn lemma_state_name_short(s: MemberState)
    ensures
        0 < state_name(s).len() < 12,
        state_name(s) == state_label(s),
{
    reveal_strlit("tension");
    reveal_strlit("compression");
    reveal_strlit("zero-force");
}

/// In the text report, the row of element `i` stands after the header, the
/// displacement rows, the reaction rows and the rows of the elements before
/// it, and ends with a space and the name of that element's own state
/// (`tension`, `compression` or `zero-force`).
pub proof fn lemma_text_report_states(d: TextDocumentV, i: int)
    requires
        0 <= i < d.elements.len(),
    ensures
        ({
            let k = 17 + d.nodes.len() + reaction_rows(d.nodes).len() + i;
            let name = state_name(d.elements[i].state);
            let row = report_lines(d)[k];
            &&& k < report_lines(d).len()
            &&& row.len() > name.len()
            &&& row.skip(row.len() - name.len() - 1) == seq![' '] + name
        }),
{
    let e = d.elements[i];
    let name = state_name(e.state);
    lemma_state_name_short(e.state);
    let k = 17 + d.nodes.len() + reaction_rows(d.nodes).len() + i;
    let ls = report_lines(d);
    let head = seq![
        rule_line(),
        " Truss FEM Analysis Report"@,
        rule_line(),
        " Title      : "@ + d.title,
        " Type       : "@ + (if d.planar {
            "2D (planar)"@
        } else {
            "3D (space)"@
        }) + " truss"@,
        " Nodes      : "@ + nat_text(d.node_count),
        " Elements   : "@ + nat_text(d.element_count),
        " Max |disp| : "@ + d.max_abs_displacement,
        seq![],
        "-- Nodal Displacements ------------------------------------"@,
        row4("Node"@, "Ux"@, "Uy"@, "Uz"@),
    ];
    let mid = seq![
        seq![],
        "-- Support Reactions --------------------------------------"@,
        row4("Node"@, "Rx"@, "Ry"@, "Rz"@),
    ];
    let mid2 = seq![
        seq![],
        "-- Element Forces -----------------------------------------"@,
        element_row("Elem"@, "A"@, "B"@, "Length"@, "Axial Force"@, "Stress"@, "State"@),
    ];
    let tail = seq![
        seq![],
        " Sign convention: axial force/stress > 0 = tension, < 0 = compression."@,
        rule_line(),
    ];
    let before = head + displacement_rows(d.nodes) + mid + reaction_rows(d.nodes) + mid2;
    assert(ls == before + element_rows(d.elements) + tail);
    assert(before.len() == 17 + d.nodes.len() + reaction_rows(d.nodes).len());
    assert(ls[k] == element_rows(d.elements)[i]);
    let row = element_line_of(e);
    assert(ls[k] == row);
    let pad = pad_left(name, 12);
    assert(pad == spaces((12 - name.len()) as nat) + name);
    let pre = "  "@ + pad_left(int_text(e.id as int), 5) + "  "@ + pad_left(
        int_text(e.node_ids[0] as int),
        5,
    ) + " "@ + pad_left(int_text(e.node_ids[1] as int), 5) + "  "@ + pad_left(e.length, 12)
        + "  "@ + pad_left(e.axial_force, 14) + "  "@ + pad_left(e.stress, 14) + "  "@;
    assert(row == pre + pad);
    let sp = spaces((12 - name.len()) as nat);
    assert(row =~= (pre + sp) + name);
    assert(sp[sp.len() - 1] == ' ');
    assert(row.skip(row.len() - name.len() - 1) =~= seq![' '] + name);
}

/// Whether `s` ends with `t`.
pub open spec fn ends_with(s: Seq<char>, t: Seq<char>) -> bool {
    s.len() >= t.len() && s.skip(s.len() - t.len()) == t
}

/// The end of an element's JSON line whose state is written as `lit`.
pub open spec fn state_entry_end(lit: Seq<char>, last: bool) -> Seq<char> {
    ", \"state\": "@ + lit + " }"@ + list_comma(last) + seq!['\n']
}

/// In the JSON report, the line of an element ends with its `"state"` entry,
/// whose JSON string reads back as the name of that element's own state.
pub proof fn lemma_json_element_state(e: JsonElementV, last: bool)
    ensures
        exists|lit: Seq<char>|
            #[trigger] ends_with(json_element_line(e, last), state_entry_end(lit, last))
                && json_string_value(lit) == Some(state_name(e.state)),
{
    lemma_state_name_short(e.state);
    let lit = json_string(state_name(e.state));
    lemma_json_string_reads_back(state_name(e.state));
    let line = json_element_line(e, last);
    let end = state_entry_end(lit, last);
    let pre = "    { \"id\": "@ + int_text(e.id as int) + ", \"nodes\": ["@ + int_text(
        e.node_ids[0] as int,
    ) + ", "@ + int_text(e.node_ids[1] as int) + "], \"length\": "@ + e.length
        + ", \"axialForce\": "@ + e.axial_force + ", \"stress\": "@ + e.stress + ", \"strain\": "@
        + e.strain + ", \"elongation\": "@ + e.elongation;
    assert(line =~= pre + end);
    assert(line.skip(line.len() - end.len()) =~= end);
    assert(ends_with(line, end));
}

/// The text report has its header, one row per node displacement, one per
/// support reaction, one per element and a footer; its title line holds the
/// title, and the displacement row of node `i` gives its id and `Ux`, `Uy`,
/// `Uz` in that order, right-aligned in 5 and 14 columns.
pub proof fn lemma_text_report_shape(d: TextDocumentV)
    ensures
        report_lines(d).len() == 20 + d.nodes.len() + reaction_rows(d.nodes).len()
            + d.elements.len(),
        report_lines(d)[3] == " Title      : "@ + d.title,
        report_lines(d)[5] == " Nodes      : "@ + nat_text(d.node_count),
        report_lines(d)[6] == " Elements   : "@ + nat_text(d.element_count),
        forall|i: int|
            0 <= i < d.nodes.len() ==> #[trigger] report_lines(d)[11 + i] == "  "@ + pad_left(
                int_text(d.nodes[i].id as int),
                5,
            ) + "  "@ + pad_left(d.nodes[i].displacement[0], 14) + "  "@ + pad_left(
                d.nodes[i].displacement[1],
                14,
            ) + "  "@ + pad_left(d.nodes[i].displacement[2], 14),
{
    let ls = report_lines(d);
    assert forall|i: int| 0 <= i < d.nodes.len() implies #[trigger] ls[11 + i] == "  "@ + pad_left(
        int_text(d.nodes[i].id as int),
        5,
    ) + "  "@ + pad_left(d.nodes[i].displacement[0], 14) + "  "@ + pad_left(
        d.nodes[i].displacement[1],
        14,
    ) + "  "@ + pad_left(d.nodes[i].displacement[2], 14) by {
        assert(ls[11 + i] == displacement_rows(d.nodes)[i]);
    }
}

/// The part of the JSON report before its element lines.
pub open spec fn json_before_elements(d: JsonDocumentV) -> Seq<char> {
    "{\n"@ + "  \"title\": "@ + json_string(d.title) + ",\n"@ + "  \"planar\": "@ + bool_text(
        d.planar,
    ) + ",\n"@ + "  \"maxAbsDisplacement\": "@ + d.max_abs_displacement + ",\n"@
        + "  \"nodes\": [\n"@ + json_node_lines(d.nodes, d.nodes.len()) + "  ],\n"@
        + "  \"elements\": [\n"@
}

proof fn lemma_element_lines_prefix(es: Seq<JsonElementV>, i: nat, n: nat)
    requires
        i <= n,
    ensures
        json_element_lines(es, n).len() >= json_element_lines(es, i).len(),
        json_element_lines(es, n).take(json_element_lines(es, i).len() as int)
            == json_element_lines(es, i),
    decreases n,
{
    if i < n {
        lemma_element_lines_prefix(es, i, (n - 1) as nat);
        let a = json_element_lines(es, (n - 1) as nat);
        let b = json_element_lines(es, i);
        assert(json_element_lines(es, n).take(b.len() as int) =~= a.take(b.len() as int));
    } else {
        assert(json_element_lines(es, n).take(json_element_lines(es, n).len() as int)
            =~= json_element_lines(es, n));
    }
}

/// Each element of the JSON report has its line, in order: the line of
/// element `i` follows the report's opening part and the lines of the
/// elements before it, and it is the last one without a trailing comma.
pub proof fn lemma_json_report_elements(d: JsonDocumentV, i: int)
    requires
        0 <= i < d.elements.len(),
    ensures
        ({
            let p = json_before_elements(d).len() + json_element_lines(d.elements, i as nat).len();
            let line = json_element_line(d.elements[i], i + 1 == d.elements.len());
            &&& p + line.len() <= spec_json_report(d).len()
            &&& spec_json_report(d).subrange(p as int, (p + line.len()) as int) == line
        }),
{
    let es = d.elements;
    let n = es.len();
    let pre = json_before_elements(d);
    let a = json_element_lines(es, i as nat);
    let line = json_element_line(es[i], i + 1 == n);
    let b = json_element_lines(es, (i + 1) as nat);
    assert(b == a + line);
    lemma_element_lines_prefix(es, (i + 1) as nat, n);
    let all = json_element_lines(es, n);
    let r = spec_json_report(d);
    assert(r =~= pre + all + "  ]\n"@ + "}\n"@);
    assert(all.take(b.len() as int) == b);
    let p = pre.len() + a.len();
    assert(r.subrange(p as int, (p + line.len()) as int) =~= all.subrange(a.len() as int, (a.len() + line.len()) as int));
    assert(all.subrange(a.len() as int, (a.len() + line.len()) as int) =~= b.subrange(a.len() as int, b.len() as int));
    assert(b.subrange(a.len() as int, b.len() as int) =~= line);
}

} // verus!
