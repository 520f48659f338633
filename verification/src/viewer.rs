//! The self-contained web viewer page: the analysed model (as JSON) and its
//! title are put into an HTML page that draws the truss with plain
//! JavaScript (no CDN, no build step, works offline).
use vstd::prelude::*;

use crate::numbers::{nat_text, push_usize};
use crate::text::{chars_of, push_char, push_str};

verus! {

/// The viewer page up to the place of the model JSON: a page that draws
/// the truss in 3D (orbit, zoom, pan, preset views and Fit), the undeformed
/// and deformed shapes, members coloured and sized by axial force with
/// their force and stress on hover, supports and loads as markers and
/// arrows, and sortable member, displacement and reaction tables. Each
/// `__TITLE__` in it stands for the title.
pub const PAGE_HEAD: &'static str = r##"<!DOCTYPE html>
<html lang="en">
<head>
<meta charset="utf-8">
<title>__TITLE__ - truss-fem viewer</title>
<style>
body { margin: 0; font-family: system-ui, sans-serif; background: #f4f5f7; color: #222; }
header { padding: 10px 16px; background: #263238; color: #fff; }
header h1 { margin: 0; font-size: 18px; }
#wrap { display: flex; flex-wrap: wrap; }
#view { flex: 2 1 600px; position: relative; }
canvas { width: 100%; height: 70vh; background: #fff; display: block; cursor: grab; }
#tip { position: absolute; pointer-events: none; background: rgba(38, 50, 56, 0.92); color: #fff;
  font-size: 12px; padding: 4px 8px; border-radius: 4px; display: none; white-space: nowrap; }
#side { flex: 1 1 320px; padding: 8px 16px; overflow: auto; max-height: 80vh; }
table { border-collapse: collapse; font-size: 12px; margin-bottom: 16px; }
th, td { border: 1px solid #ccc; padding: 2px 6px; text-align: right; }
th { background: #e0e4e8; cursor: pointer; user-select: none; }
.bar { padding: 6px 16px; background: #fff; border-bottom: 1px solid #ddd; font-size: 13px; }
.bar button { margin-right: 6px; }
.legend span { display: inline-block; margin-right: 12px; }
</style>
</head>
<body>
<header><h1>__TITLE__</h1></header>
<div class="bar">
<button data-view="iso">Iso</button><button data-view="xy">XY</button>
<button data-view="xz">XZ</button><button data-view="yz">YZ</button>
<button id="fit">Fit</button>
<label>Deformation scale <input id="scale" type="range" min="0" max="200" value="50"></label>
<label><input id="deformed" type="checkbox" checked> deformed shape</label>
<span class="legend"><span style="color:#d32f2f">&#9632; tension</span><span style="color:#1565c0">&#9632; compression</span>
<span style="color:#2e7d32">&#9650; support</span><span style="color:#ef6c00">&#8594; load</span></span>
</div>
<div id="wrap">
<div id="view"><canvas id="c"></canvas><div id="tip"></div></div>
<div id="side"><div id="summary"></div><div id="tables"></div></div>
</div>
<script>
const DATA = "##;

/// The viewer page after the model JSON; it holds no placeholder.
pub const PAGE_TAIL: &'static str = r##";
const canvas = document.getElementById("c");
const ctx = canvas.getContext("2d");
const tip = document.getElementById("tip");
let yaw = -0.6, pitch = 0.5, zoom = 1, panX = 0, panY = 0;
const views = { iso: [-0.6, 0.5], xy: [0, 0], xz: [0, Math.PI / 2], yz: [-Math.PI / 2, 0] };
const ids = new Map(DATA.nodes.map((n, i) => [n.id, i]));
let lo = [Infinity, Infinity, Infinity], hi = [-Infinity, -Infinity, -Infinity];
for (const n of DATA.nodes) for (let k = 0; k < 3; k++) { lo[k] = Math.min(lo[k], n.coord[k]); hi[k] = Math.max(hi[k], n.coord[k]); }
const center = lo.map((v, k) => (v + hi[k]) / 2);
const span = Math.max(1e-9, ...hi.map((v, k) => v - lo[k]));
const maxForce = Math.max(1e-12, ...DATA.elements.map(e => Math.abs(e.axialForce || 0)));
const loadSize = n => Math.hypot(...(n.load || [0, 0, 0]).map(v => v || 0));
const maxLoad = Math.max(1e-12, ...DATA.nodes.map(loadSize));
const fmt = v => (v === null || v === undefined) ? "-" : Number(v).toPrecision(5);
let segments = [];
function project(p) {
  const x = p[0] - center[0], y = p[1] - center[1], z = p[2] - center[2];
  const x1 = x * Math.cos(yaw) - z * Math.sin(yaw), z1 = x * Math.sin(yaw) + z * Math.cos(yaw);
  const y1 = y * Math.cos(pitch) - z1 * Math.sin(pitch);
  const s = 0.8 * Math.min(canvas.width, canvas.height) / span * zoom;
  return [canvas.width / 2 + panX + x1 * s, canvas.height / 2 + panY - y1 * s];
}
function position(n, scaled) {
  const f = scaled ? document.getElementById("scale").value / 100 * span * 0.1 / Math.max(1e-12, DATA.maxAbsDisplacement || 0) : 0;
  return n.coord.map((c, k) => c + f * (n.displacement ? (n.displacement[k] || 0) : 0));
}
function arrow(from, to) {
  const a = Math.atan2(to[1] - from[1], to[0] - from[0]);
  ctx.beginPath(); ctx.moveTo(from[0], from[1]); ctx.lineTo(to[0], to[1]); ctx.stroke();
  ctx.beginPath(); ctx.moveTo(to[0], to[1]);
  ctx.lineTo(to[0] - 9 * Math.cos(a - 0.4), to[1] - 9 * Math.sin(a - 0.4));
  ctx.lineTo(to[0] - 9 * Math.cos(a + 0.4), to[1] - 9 * Math.sin(a + 0.4));
  ctx.closePath(); ctx.fill();
}
function draw() {
  canvas.width = canvas.clientWidth; canvas.height = canvas.clientHeight;
  ctx.clearRect(0, 0, canvas.width, canvas.height);
  const deformed = document.getElementById("deformed").checked;
  segments = [];
  for (const e of DATA.elements) {
    const a = DATA.nodes[ids.get(e.nodes[0])], b = DATA.nodes[ids.get(e.nodes[1])];
    const pa = project(position(a, false)), pb = project(position(b, false));
    ctx.strokeStyle = "#bbb"; ctx.lineWidth = 1; ctx.setLineDash([4, 3]);
    ctx.beginPath(); ctx.moveTo(pa[0], pa[1]); ctx.lineTo(pb[0], pb[1]); ctx.stroke();
    ctx.setLineDash([]);
    let sa = pa, sb = pb;
    if (deformed) {
      sa = project(position(a, true)); sb = project(position(b, true));
      ctx.strokeStyle = e.state === "tension" ? "#d32f2f" : e.state === "compression" ? "#1565c0" : "#555";
      ctx.lineWidth = 1 + 4 * Math.abs(e.axialForce || 0) / maxForce;
      ctx.beginPath(); ctx.moveTo(sa[0], sa[1]); ctx.lineTo(sb[0], sb[1]); ctx.stroke();
    }
    segments.push([sa, sb, e]);
  }
  for (const n of DATA.nodes) {
    const p = project(position(n, deformed));
    if (n.fixed.some(f => f)) {
      ctx.fillStyle = "#2e7d32";
      ctx.beginPath(); ctx.moveTo(p[0], p[1]); ctx.lineTo(p[0] - 7, p[1] + 11); ctx.lineTo(p[0] + 7, p[1] + 11);
      ctx.closePath(); ctx.fill();
    }
    const size = loadSize(n);
    if (size > 0) {
      const len = 0.15 * span * size / maxLoad;
      const base = position(n, deformed).map((c, k) => c - len * (n.load[k] || 0) / size);
      ctx.strokeStyle = ctx.fillStyle = "#ef6c00"; ctx.lineWidth = 2;
      arrow(project(base), p);
    }
    ctx.fillStyle = "#222";
    ctx.fillRect(p[0] - 3, p[1] - 3, 6, 6);
  }
}
function nearest(x, y) {
  let best = null, bestD = 6;
  for (const [a, b, e] of segments) {
    const dx = b[0] - a[0], dy = b[1] - a[1], l2 = dx * dx + dy * dy;
    const t = l2 > 0 ? Math.max(0, Math.min(1, ((x - a[0]) * dx + (y - a[1]) * dy) / l2)) : 0;
    const d = Math.hypot(x - a[0] - t * dx, y - a[1] - t * dy);
    if (d < bestD) { bestD = d; best = e; }
  }
  return best;
}
const tables = {
  members: { title: "Members", head: ["id", "A", "B", "length", "force", "stress", "state"],
    rows: DATA.elements.map(e => [e.id, e.nodes[0], e.nodes[1], e.length, e.axialForce, e.stress, e.state]), key: -1, dir: 1 },
  displacements: { title: "Displacements", head: ["node", "ux", "uy", "uz"],
    rows: DATA.nodes.map(n => [n.id].concat(n.displacement || [null, null, null])), key: -1, dir: 1 },
  reactions: { title: "Reactions", head: ["node", "Rx", "Ry", "Rz"],
    rows: DATA.nodes.filter(n => n.fixed.some(f => f)).map(n => [n.id].concat(n.reaction || [null, null, null])), key: -1, dir: 1 },
};
const cell = v => typeof v === "number" ? fmt(v) : (v === null || v === undefined ? "-" : String(v));
function renderTables() {
  document.getElementById("tables").innerHTML = Object.entries(tables).map(([name, t]) =>
    "<h3>" + t.title + "</h3><table><tr>" + t.head.map((h, i) => "<th data-table=\"" + name + "\" data-col=\"" + i + "\">" + h +
      (t.key === i ? (t.dir > 0 ? " &#9650;" : " &#9660;") : "") + "</th>").join("") + "</tr>" +
    t.rows.map(r => "<tr>" + r.map(c => "<td>" + cell(c) + "</td>").join("") + "</tr>").join("") + "</table>").join("");
  for (const th of document.querySelectorAll("th[data-table]")) th.addEventListener("click", () => {
    const t = tables[th.dataset.table], col = Number(th.dataset.col);
    t.dir = t.key === col ? -t.dir : 1; t.key = col;
    t.rows.sort((a, b) => {
      const x = a[col], y = b[col];
      const c = (typeof x === "number" && typeof y === "number") ? x - y : String(x).localeCompare(String(y));
      return c * t.dir;
    });
    renderTables();
  });
}
document.getElementById("summary").innerHTML = "<p>" + DATA.nodes.length + " nodes, " + DATA.elements.length +
  " elements, " + (DATA.planar ? "planar" : "space") + " truss; max |disp| = " + fmt(DATA.maxAbsDisplacement) + "</p>";
renderTables();
let drag = null;
canvas.addEventListener("mousedown", ev => { drag = [ev.clientX, ev.clientY, ev.shiftKey]; tip.style.display = "none"; });
window.addEventListener("mouseup", () => { drag = null; });
window.addEventListener("mousemove", ev => {
  if (!drag) return;
  const dx = ev.clientX - drag[0], dy = ev.clientY - drag[1];
  if (drag[2]) { panX += dx; panY += dy; } else { yaw += dx * 0.01; pitch += dy * 0.01; }
  drag = [ev.clientX, ev.clientY, drag[2]]; draw();
});
canvas.addEventListener("mousemove", ev => {
  if (drag) return;
  const r = canvas.getBoundingClientRect();
  const x = ev.clientX - r.left, y = ev.clientY - r.top;
  const e = nearest(x, y);
  if (!e) { tip.style.display = "none"; return; }
  tip.textContent = "member " + e.id + " (" + e.nodes[0] + "-" + e.nodes[1] + "): force " + fmt(e.axialForce) +
    ", stress " + fmt(e.stress) + ", " + e.state;
  tip.style.left = (x + 12) + "px"; tip.style.top = (y + 12) + "px"; tip.style.display = "block";
});
canvas.addEventListener("mouseleave", () => { tip.style.display = "none"; });
canvas.addEventListener("wheel", ev => { ev.preventDefault(); zoom *= ev.deltaY < 0 ? 1.1 : 1 / 1.1; draw(); });
for (const b of document.querySelectorAll("button[data-view]")) b.addEventListener("click", () => { [yaw, pitch] = views[b.dataset.view]; panX = panY = 0; zoom = 1; draw(); });
document.getElementById("fit").addEventListener("click", () => { panX = panY = 0; zoom = 1; draw(); });
document.getElementById("scale").addEventListener("input", draw);
document.getElementById("deformed").addEventListener("change", draw);
window.addEventListener("resize", draw);
draw();
</script>
</body>
</html>"##;

/// `s` with every occurrence of the non-empty `pat` replaced by `rep`,
/// scanning left to right without overlaps (`str::replace`).
pub open spec fn replace_all(s: Seq<char>, pat: Seq<char>, rep: Seq<char>) -> Seq<char>
    recommends
        pat.len() > 0,
    decreases s.len(),
{
    if pat.len() == 0 || s.len() < pat.len() {
        s
    } else if s.take(pat.len() as int) == pat {
        rep + replace_all(s.skip(pat.len() as int), pat, rep)
    } else {
        seq![s[0]] + replace_all(s.drop_first(), pat, rep)
    }
}

/// How one character is written in HTML text.
pub open spec fn html_escape_char(c: char) -> Seq<char> {
    if c == '&' {
        "&amp;"@
    } else if c == '<' {
        "&lt;"@
    } else if c == '>' {
        "&gt;"@
    } else {
        seq![c]
    }
}

/// `s` with `&`, `<` and `>` escaped for HTML text.
pub open spec fn html_escape_spec(s: Seq<char>) -> Seq<char>
    decreases s.len(),
{
    if s.len() == 0 {
        seq![]
    } else {
        html_escape_spec(s.drop_last()) + html_escape_char(s.last())
    }
}

/// Escaped text holds no markup brackets: a title cannot open or close a tag.
pub proof fn lemma_html_escape_no_brackets(s: Seq<char>)
    ensures
        forall|i: int|
            0 <= i < html_escape_spec(s).len() ==> #[trigger] html_escape_spec(s)[i] != '<'
                && html_escape_spec(s)[i] != '>',
    decreases s.len(),
{
    reveal_strlit("&amp;");
    reveal_strlit("&lt;");
    reveal_strlit("&gt;");
    if s.len() > 0 {
        lemma_html_escape_no_brackets(s.drop_last());
        let p = html_escape_spec(s.drop_last());
        let q = html_escape_char(s.last());
        assert forall|i: int|
            0 <= i < html_escape_spec(s).len() implies #[trigger] html_escape_spec(s)[i] != '<'
            && html_escape_spec(s)[i] != '>' by {
            if i < p.len() {
                assert(html_escape_spec(s)[i] == p[i]);
            } else {
                assert(html_escape_spec(s)[i] == q[i - p.len()]);
            }
        }
    }
}

/// `text` with each `__TITLE__` replaced by the escaped title.
pub open spec fn titled(text: Seq<char>, title: Seq<char>) -> Seq<char> {
    replace_all(text, "__TITLE__"@, html_escape_spec(title))
}

/// The text that HTML shows for `t` when `&amp;`, `&lt;` and `&gt;` are the
/// only character references in it; `None` when a `&` starts none of them.
pub open spec fn html_unescape(t: Seq<char>) -> Option<Seq<char>>
    decreases t.len(),
{
    if t.len() == 0 {
        Some(seq![])
    } else if t[0] == '&' {
        if t.len() >= 5 && t.take(5) == "&amp;"@ {
            match html_unescape(t.skip(5)) {
                Some(r) => Some(seq!['&'] + r),
                None => None,
            }
        } else if t.len() >= 4 && t.take(4) == "&lt;"@ {
            match html_unescape(t.skip(4)) {
                Some(r) => Some(seq!['<'] + r),
                None => None,
            }
        } else if t.len() >= 4 && t.take(4) == "&gt;"@ {
            match html_unescape(t.skip(4)) {
                Some(r) => Some(seq!['>'] + r),
                None => None,
            }
        } else {
            None
        }
    } else {
        match html_unescape(t.skip(1)) {
            Some(r) => Some(seq![t[0]] + r),
            None => None,
        }
    }
}

proof fn lemma_html_escape_front(s: Seq<char>)
    requires
        s.len() > 0,
    ensures
        html_escape_spec(s) == html_escape_char(s[0]) + html_escape_spec(s.drop_first()),
    decreases s.len(),
{
    if s.len() == 1 {
        assert(s.drop_last() =~= Seq::<char>::empty());
        assert(s.drop_first() =~= Seq::<char>::empty());
        assert(html_escape_spec(s.drop_last()) =~= Seq::<char>::empty());
        assert(html_escape_spec(s.drop_first()) =~= Seq::<char>::empty());
        assert(s.last() == s[0]);
        assert(html_escape_spec(s) =~= html_escape_char(s[0]));
        assert(html_escape_char(s[0]) + Seq::<char>::empty() =~= html_escape_char(s[0]));
    } else {
        lemma_html_escape_front(s.drop_last());
        assert(s.drop_last().drop_first() =~= s.drop_first().drop_last());
        assert(s.drop_first().last() == s.last());
        assert(s.drop_last()[0] == s[0]);
        assert(html_escape_char(s[0]) + html_escape_spec(s.drop_last().drop_first())
            + html_escape_char(s.last()) =~= html_escape_char(s[0]) + (html_escape_spec(
            s.drop_first().drop_last(),
        ) + html_escape_char(s.drop_first().last())));
    }
}

proof fn lemma_html_unescape_char(c: char, rest: Seq<char>)
    ensures
        html_unescape(html_escape_char(c) + rest) == match html_unescape(rest) {
            Some(r) => Some(seq![c] + r),
            None => None,
        },
{
    reveal_strlit("&amp;");
    reveal_strlit("&lt;");
    reveal_strlit("&gt;");
    let e = html_escape_char(c);
    let t = e + rest;
    if c == '&' {
        assert(t.take(5) =~= "&amp;"@);
        assert(t.skip(5) =~= rest);
    } else if c == '<' {
        assert(t[1] == 'l' && "&amp;"@[1] == 'a');
        if t.len() >= 5 {
            assert(t.take(5)[1] == t[1]);
        }
        assert(t.take(4) =~= "&lt;"@);
        assert(t.skip(4) =~= rest);
    } else if c == '>' {
        assert(t[1] == 'g' && "&amp;"@[1] == 'a' && "&lt;"@[1] == 'l');
        if t.len() >= 5 {
            assert(t.take(5)[1] == t[1]);
        }
        assert(t.take(4)[1] == t[1]);
        assert(t.take(4) =~= "&gt;"@);
        assert(t.skip(4) =~= rest);
    } else {
        assert(t[0] == c);
        assert(t.skip(1) =~= rest);
    }
}

/// Escaped text reads back, in HTML, as the text itself: a title shows as
/// written.
pub proof fn lemma_html_escape_reads_back(s: Seq<char>)
    ensures
        html_unescape(html_escape_spec(s)) == Some(s),
    decreases s.len(),
{
    if s.len() == 0 {
        assert(html_escape_spec(s) =~= Seq::<char>::empty());
    } else {
        lemma_html_escape_front(s);
        lemma_html_escape_reads_back(s.drop_first());
        lemma_html_unescape_char(s[0], html_escape_spec(s.drop_first()));
        assert(seq![s[0]] + s.drop_first() =~= s);
    }
}

/// The page for a model's title and JSON: the page head with the escaped
/// title in place of `__TITLE__`, the model JSON unchanged, and the page tail
/// (which holds no placeholder). Neither the title nor the JSON is searched
/// for placeholders.
pub open spec fn page_for(title: Seq<char>, model_json: Seq<char>) -> Seq<char> {
    titled(PAGE_HEAD@, title) + model_json + PAGE_TAIL@
}

/// The page is made of three parts, in order and nothing else: the head of
/// the page with the title put in, the model JSON unchanged, and the whole
/// tail of the page (the viewer script and the closing tags).
pub proof fn lemma_page_parts(title: Seq<char>, model_json: Seq<char>)
    ensures
        ({
            let page = page_for(title, model_json);
            let k = titled(PAGE_HEAD@, title).len();
            &&& page.len() == k + model_json.len() + PAGE_TAIL@.len()
            &&& page.take(k as int) == titled(PAGE_HEAD@, title)
            &&& page.subrange(k as int, (k + model_json.len()) as int) == model_json
            &&& page.skip((k + model_json.len()) as int) == PAGE_TAIL@
        }),
{
    let h = titled(PAGE_HEAD@, title);
    let page = page_for(title, model_json);
    assert(page.take(h.len() as int) =~= h);
    assert(page.subrange(h.len() as int, (h.len() + model_json.len()) as int) =~= model_json);
    assert(page.skip((h.len() + model_json.len()) as int) =~= PAGE_TAIL@);
}

/// The page holds the model JSON unchanged, right after the titled head.
pub proof fn lemma_page_holds_json(title: Seq<char>, model_json: Seq<char>)
    ensures
        ({
            let k = titled(PAGE_HEAD@, title).len();
            page_for(title, model_json).subrange(k as int, (k + model_json.len()) as int)
                == model_json
        }),
{
    lemma_page_parts(title, model_json);
}

/// Whether `pat` occurs in `s` at position `i`.
fn matches_at(s: &Vec<char>, i: usize, pat: &Vec<char>) -> (b: bool)
    requires
        i <= s.len(),
    ensures
        b == (s.len() - i >= pat.len() && s@.skip(i as int).take(pat.len() as int) == pat@),
{
    if s.len() - i < pat.len() {
        return false;
    }
    let mut k: usize = 0;
    while k < pat.len()
        invariant
            i <= s.len(),
            s.len() - i >= pat.len(),
            k <= pat.len(),
            forall|j: int| 0 <= j < k ==> s@[i + j] == pat@[j],
        decreases pat.len() - k,
    {
        if s[i + k] != pat[k] {
            assert(s@.skip(i as int).take(pat.len() as int)[k as int] == s@[i + k]);
            return false;
        }
        k += 1;
    }
    assert(s@.skip(i as int).take(pat.len() as int) =~= pat@);
    true
}

/// `s` with every occurrence of `pat` replaced by `rep`.
fn replace_text(s: &str, pat: &str, rep: &str) -> (out: String)
    requires
        pat@.len() > 0,
    ensures
        out@ == replace_all(s@, pat@, rep@),
{
    let sc = chars_of(s);
    let pc = chars_of(pat);
    let mut out = String::new();
    let mut i: usize = 0;
    assert(sc@.skip(0) =~= sc@);
    while i < sc.len()
        invariant
            i <= sc.len(),
            sc@ == s@,
            pc@ == pat@,
            pat@.len() > 0,
            out@ + replace_all(sc@.skip(i as int), pat@, rep@) == replace_all(s@, pat@, rep@),
        decreases sc.len() - i,
    {
        let ghost rest = sc@.skip(i as int);
        let ghost before = out@;
        if matches_at(&sc, i, &pc) {
            push_str(&mut out, rep);
            assert(rest.skip(pat@.len() as int) =~= sc@.skip(i + pc.len()));
            assert(out@ + replace_all(sc@.skip(i + pc.len()), pat@, rep@) =~= before + replace_all(rest, pat@, rep@));
            i = i + pc.len();
        } else {
            push_char(&mut out, sc[i]);
            assert(rest.drop_first() =~= sc@.skip(i + 1));
            assert(rest[0] == sc@[i as int]);
            i = i + 1;
        }
    }
    assert(sc@.skip(i as int) =~= Seq::<char>::empty());
    assert(out@ + Seq::<char>::empty() =~= out@);
    out
}

/// Escape `&`, `<` and `>` for HTML text.
pub fn html_escape(s: &str) -> (out: String)
    ensures
        out@ == html_escape_spec(s@),
{
    let chars = chars_of(s);
    let mut out = String::new();
    let mut i: usize = 0;
    assert(chars@.take(0) =~= Seq::<char>::empty());
    while i < chars.len()
        invariant
            i <= chars.len(),
            out@ == html_escape_spec(chars@.take(i as int)),
        decreases chars.len() - i,
    {
        let c = chars[i];
        if c == '&' {
            push_str(&mut out, "&amp;");
        } else if c == '<' {
            push_str(&mut out, "&lt;");
        } else if c == '>' {
            push_str(&mut out, "&gt;");
        } else {
            push_char(&mut out, c);
        }
        assert(chars@.take(i + 1).drop_last() =~= chars@.take(i as int));
        assert(chars@.take(i + 1).last() == c);
        i += 1;
    }
    assert(chars@.take(chars.len() as int) =~= chars@);
    out
}

/// Produce a complete, standalone HTML document for the given model JSON.
pub fn build_html(title: &str, model_json: &str) -> (page: String)
    ensures
        page@ == page_for(title@, model_json@),
{
    proof {
        reveal_strlit("__TITLE__");
    }
    let escaped = html_escape(title);
    let mut page = replace_text(PAGE_HEAD, "__TITLE__", escaped.as_str());
    push_str(&mut page, model_json);
    push_str(&mut page, PAGE_TAIL);
    page
}

/// The HTTP response header that precedes a page of `body_len` bytes.
pub open spec fn response_header_spec(body_len: nat) -> Seq<char> {
    "HTTP/1.1 200 OK\r\nContent-Type: text/html; charset=utf-8\r\nContent-Length: "@
        + nat_text(body_len) + "\r\nCache-Control: no-store\r\nConnection: close\r\n\r\n"@
}

/// The HTTP response header for a page of `body_len` bytes: status, content
/// type and length, no caching, and a connection closed after the page.
pub fn response_header(body_len: usize) -> (h: String)
    ensures
        h@ == response_header_spec(body_len as nat),
{
    let mut h = String::new();
    push_str(&mut h, "HTTP/1.1 200 OK\r\nContent-Type: text/html; charset=utf-8\r\nContent-Length: ");
    push_usize(&mut h, body_len);
    push_str(&mut h, "\r\nCache-Control: no-store\r\nConnection: close\r\n\r\n");
    h
}

} // verus!
