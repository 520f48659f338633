//! The decisions of the interactive shell: how a command line splits into a
//! command word and its argument, which command a word names, and how the
//! arguments of `report` and `serve` are read.
use vstd::prelude::*;

use crate::numbers::{ascii_lower, nat_text, push_usize, unsigned_in_range, unsigned_value};
use crate::text::{chars_of, is_whitespace, is_ws, push_char, push_str, trim, trim_str};

verus! {

/// Index of the first whitespace character of `s`, or `s.len()`.
pub open spec fn first_ws(s: Seq<char>) -> nat
    decreases s.len(),
{
    if s.len() == 0 {
        0
    } else if is_ws(s[0]) {
        0
    } else {
        1 + first_ws(s.drop_first())
    }
}

proof fn lemma_first_ws(s: Seq<char>, i: int)
    requires
        0 <= i <= s.len(),
        forall|k: int| 0 <= k < i ==> !is_ws(s[k]),
        i == s.len() || is_ws(s[i]),
    ensures
        first_ws(s) == i,
    decreases i,
{
    if i > 0 {
        lemma_first_ws(s.drop_first(), i - 1);
    }
}

/// `trim(s)` without one pair of surrounding double or single quotes.
pub open spec fn unquote_spec(s: Seq<char>) -> Seq<char> {
    let t = trim(s);
    if t.len() >= 2 && ((t[0] == '"' && t.last() == '"') || (t[0] == '\'' && t.last() == '\'')) {
        t.subrange(1, t.len() - 1)
    } else {
        t
    }
}

/// The command word (up to the first whitespace) and the unquoted rest.
pub open spec fn split_command_spec(line: Seq<char>) -> (Seq<char>, Seq<char>) {
    let p = first_ws(line);
    if p < line.len() {
        (line.take(p as int), unquote_spec(line.skip(p as int)))
    } else {
        (line, Seq::<char>::empty())
    }
}

/// Strip surrounding whitespace and one pair of matching quotes.
pub fn unquote(s: &str) -> (r: &str)
    ensures
        r@ == unquote_spec(s@),
{
    let t = trim_str(s);
    let n = t.unicode_len();
    if n >= 2 {
        let first = t.get_char(0);
        let last = t.get_char(n - 1);
        if (first == '"' && last == '"') || (first == '\'' && last == '\'') {
            return t.substring_char(1, n - 1);
        }
    }
    t
}

/// Split a command line into the command word and the (possibly empty)
/// rest; the rest keeps internal spaces and loses surrounding quotes.
pub fn split_command(line: &str) -> (r: (&str, &str))
    ensures
        (r.0@, r.1@) == split_command_spec(line@),
{
    let chars = chars_of(line);
    let mut p: usize = 0;
    while p < chars.len() && !is_whitespace(chars[p])
        invariant
            p <= chars.len(),
            chars@ == line@,
            forall|k: int| 0 <= k < p ==> !is_ws(chars@[k]),
        decreases chars.len() - p,
    {
        p += 1;
    }
    proof {
        lemma_first_ws(line@, p as int);
    }
    if p < chars.len() {
        let word = line.substring_char(0, p);
        let rest = line.substring_char(p, chars.len());
        assert(line@.subrange(p as int, line@.len() as int) =~= line@.skip(p as int));
        (word, unquote(rest))
    } else {
        proof {
            reveal_strlit("");
        }
        (line, "")
    }
}

/// `s` in ASCII lower case.
pub open spec fn lower_text(s: Seq<char>) -> Seq<char> {
    s.map_values(|c: char| ascii_lower(c))
}

/// `s` in ASCII lower case (`str::to_ascii_lowercase`).
pub fn lowercase(s: &str) -> (r: String)
    ensures
        r@ == lower_text(s@),
{
    let chars = chars_of(s);
    let mut out = String::new();
    let mut i: usize = 0;
    while i < chars.len()
        invariant
            i <= chars.len(),
            chars@ == s@,
            out@ == lower_text(s@.take(i as int)),
        decreases chars.len() - i,
    {
        let c = chars[i];
        let l = if 'A' <= c && c <= 'Z' {
            ((c as u8) + 32) as char
        } else {
            c
        };
        push_char(&mut out, l);
        assert(lower_text(s@.take(i + 1)) =~= lower_text(s@.take(i as int)).push(l));
        i += 1;
    }
    assert(s@.take(chars.len() as int) =~= s@);
    out
}

/// Whether two strings are equal.
pub fn text_eq(a: &str, b: &str) -> (r: bool)
    ensures
        r == (a@ == b@),
{
    let ac = chars_of(a);
    let bc = chars_of(b);
    if ac.len() != bc.len() {
        return false;
    }
    let mut i: usize = 0;
    while i < ac.len()
        invariant
            i <= ac.len(),
            ac.len() == bc.len(),
            ac@ == a@,
            bc@ == b@,
            forall|k: int| 0 <= k < i ==> ac@[k] == bc@[k],
        decreases ac.len() - i,
    {
        if ac[i] != bc[i] {
            return false;
        }
        i += 1;
    }
    assert(ac@ =~= bc@);
    true
}

/// The commands of the shell.
#[derive(Clone, Copy, Debug, PartialEq, Eq, Structural)]
pub enum ShellCommand {
    Help,
    Exit,
    Load,
    Info,
    Solve,
    Report,
    Save,
    SaveModel,
    View,
    Serve,
    Samples,
    Example,
    Clear,
    Unknown,
}

/// The command a lower-case command word names.
pub open spec fn command_of(w: Seq<char>) -> ShellCommand {
    if w == "help"@ || w == "?"@ {
        ShellCommand::Help
    } else if w == "exit"@ || w == "quit"@ || w == "q"@ {
        ShellCommand::Exit
    } else if w == "load"@ {
        ShellCommand::Load
    } else if w == "info"@ {
        ShellCommand::Info
    } else if w == "solve"@ || w == "run"@ {
        ShellCommand::Solve
    } else if w == "report"@ {
        ShellCommand::Report
    } else if w == "save"@ {
        ShellCommand::Save
    } else if w == "save-model"@ || w == "savemodel"@ {
        ShellCommand::SaveModel
    } else if w == "view"@ {
        ShellCommand::View
    } else if w == "serve"@ {
        ShellCommand::Serve
    } else if w == "samples"@ || w == "ls"@ {
        ShellCommand::Samples
    } else if w == "example"@ {
        ShellCommand::Example
    } else if w == "clear"@ || w == "cls"@ {
        ShellCommand::Clear
    } else {
        ShellCommand::Unknown
    }
}

/// The command that a command word names, ignoring ASCII case.
pub fn parse_command(word: &str) -> (c: ShellCommand)
    ensures
        c == command_of(lower_text(word@)),
{
    let w = lowercase(word);
    let w = w.as_str();
    if text_eq(w, "help") || text_eq(w, "?") {
        ShellCommand::Help
    } else if text_eq(w, "exit") || text_eq(w, "quit") || text_eq(w, "q") {
        ShellCommand::Exit
    } else if text_eq(w, "load") {
        ShellCommand::Load
    } else if text_eq(w, "info") {
        ShellCommand::Info
    } else if text_eq(w, "solve") || text_eq(w, "run") {
        ShellCommand::Solve
    } else if text_eq(w, "report") {
        ShellCommand::Report
    } else if text_eq(w, "save") {
        ShellCommand::Save
    } else if text_eq(w, "save-model") || text_eq(w, "savemodel") {
        ShellCommand::SaveModel
    } else if text_eq(w, "view") {
        ShellCommand::View
    } else if text_eq(w, "serve") {
        ShellCommand::Serve
    } else if text_eq(w, "samples") || text_eq(w, "ls") {
        ShellCommand::Samples
    } else if text_eq(w, "example") {
        ShellCommand::Example
    } else if text_eq(w, "clear") || text_eq(w, "cls") {
        ShellCommand::Clear
    } else {
        ShellCommand::Unknown
    }
}

/// Every documented command word names its command, whatever its letter
/// case: `help`/`?`, `exit`/`quit`/`q`, `load`, `info`, `solve`/`run`,
/// `report`, `save`, `save-model`/`savemodel`, `view`, `serve`,
/// `samples`/`ls`, `example`, `clear`/`cls`; any other word is unknown.
pub proof fn lemma_command_words(word: Seq<char>)
    ensures
        ({
            let w = lower_text(word);
            let c = command_of(w);
            &&& (w == "help"@ || w == "?"@) <==> c == ShellCommand::Help
            &&& (w == "exit"@ || w == "quit"@ || w == "q"@) <==> c == ShellCommand::Exit
            &&& w == "load"@ <==> c == ShellCommand::Load
            &&& w == "info"@ <==> c == ShellCommand::Info
            &&& (w == "solve"@ || w == "run"@) <==> c == ShellCommand::Solve
            &&& w == "report"@ <==> c == ShellCommand::Report
            &&& w == "save"@ <==> c == ShellCommand::Save
            &&& (w == "save-model"@ || w == "savemodel"@) <==> c == ShellCommand::SaveModel
            &&& w == "view"@ <==> c == ShellCommand::View
            &&& w == "serve"@ <==> c == ShellCommand::Serve
            &&& (w == "samples"@ || w == "ls"@) <==> c == ShellCommand::Samples
            &&& w == "example"@ <==> c == ShellCommand::Example
            &&& (w == "clear"@ || w == "cls"@) <==> c == ShellCommand::Clear
        }),
{
    reveal_strlit("help");
    reveal_strlit("?");
    reveal_strlit("exit");
    reveal_strlit("quit");
    reveal_strlit("q");
    reveal_strlit("load");
    reveal_strlit("info");
    reveal_strlit("solve");
    reveal_strlit("run");
    reveal_strlit("report");
    reveal_strlit("save");
    reveal_strlit("save-model");
    reveal_strlit("savemodel");
    reveal_strlit("view");
    reveal_strlit("serve");
    reveal_strlit("samples");
    reveal_strlit("ls");
    reveal_strlit("example");
    reveal_strlit("clear");
    reveal_strlit("cls");
    assert("help"@.len() == 4 && "help"@[0] == 'h' && "help"@[1] == 'e');
    assert("?"@.len() == 1 && "?"@[0] == '?');
    assert("exit"@.len() == 4 && "exit"@[0] == 'e' && "exit"@[1] == 'x');
    assert("quit"@.len() == 4 && "quit"@[0] == 'q' && "quit"@[1] == 'u');
    assert("q"@.len() == 1 && "q"@[0] == 'q');
    assert("load"@.len() == 4 && "load"@[0] == 'l' && "load"@[1] == 'o');
    assert("info"@.len() == 4 && "info"@[0] == 'i' && "info"@[1] == 'n');
    assert("solve"@.len() == 5 && "solve"@[0] == 's' && "solve"@[1] == 'o');
    assert("run"@.len() == 3 && "run"@[0] == 'r' && "run"@[1] == 'u');
    assert("report"@.len() == 6 && "report"@[0] == 'r' && "report"@[1] == 'e');
    assert("save"@.len() == 4 && "save"@[0] == 's' && "save"@[1] == 'a');
    assert("save-model"@.len() == 10 && "save-model"@[0] == 's' && "save-model"@[1] == 'a');
    assert("savemodel"@.len() == 9 && "savemodel"@[0] == 's' && "savemodel"@[1] == 'a');
    assert("view"@.len() == 4 && "view"@[0] == 'v' && "view"@[1] == 'i');
    assert("serve"@.len() == 5 && "serve"@[0] == 's' && "serve"@[1] == 'e');
    assert("samples"@.len() == 7 && "samples"@[0] == 's' && "samples"@[1] == 'a');
    assert("ls"@.len() == 2 && "ls"@[0] == 'l' && "ls"@[1] == 's');
    assert("example"@.len() == 7 && "example"@[0] == 'e' && "example"@[1] == 'x');
    assert("clear"@.len() == 5 && "clear"@[0] == 'c' && "clear"@[1] == 'l');
    assert("cls"@.len() == 3 && "cls"@[0] == 'c' && "cls"@[1] == 'l');
}

proof fn lemma_trim_start_ws(w: Seq<char>, t: Seq<char>)
    requires
        forall|k: int| 0 <= k < w.len() ==> is_ws(#[trigger] w[k]),
        t.len() > 0,
        !is_ws(t[0]),
    ensures
        crate::text::trim_start(w + t) == t,
    decreases w.len(),
{
    if w.len() == 0 {
        assert(w + t =~= t);
    } else {
        assert((w + t)[0] == w[0]);
        assert((w + t).drop_first() =~= w.drop_first() + t);
        assert forall|k: int| 0 <= k < w.drop_first().len() implies is_ws(
            #[trigger] w.drop_first()[k],
        ) by {
            assert(w.drop_first()[k] == w[k + 1]);
        }
        lemma_trim_start_ws(w.drop_first(), t);
    }
}

proof fn lemma_trim_end_ws(t: Seq<char>, w: Seq<char>)
    requires
        forall|k: int| 0 <= k < w.len() ==> is_ws(#[trigger] w[k]),
        t.len() > 0,
        !is_ws(t.last()),
    ensures
        crate::text::trim_end(t + w) == t,
    decreases w.len(),
{
    if w.len() == 0 {
        assert(t + w =~= t);
    } else {
        assert((t + w).last() == w.last());
        assert((t + w).drop_last() =~= t + w.drop_last());
        assert forall|k: int| 0 <= k < w.drop_last().len() implies is_ws(
            #[trigger] w.drop_last()[k],
        ) by {
            assert(w.drop_last()[k] == w[k]);
        }
        lemma_trim_end_ws(t, w.drop_last());
    }
}

/// A quoted argument loses its quotes and the whitespace around them:
/// `"my file.txt"` and `'my file.txt'` both stand for `my file.txt`.
pub proof fn lemma_unquote_quoted(w1: Seq<char>, q: char, x: Seq<char>, w2: Seq<char>)
    requires
        q == '"' || q == '\'',
        forall|k: int| 0 <= k < w1.len() ==> is_ws(#[trigger] w1[k]),
        forall|k: int| 0 <= k < w2.len() ==> is_ws(#[trigger] w2[k]),
    ensures
        unquote_spec(w1 + seq![q] + x + seq![q] + w2) == x,
{
    let core = seq![q] + x + seq![q];
    assert(w1 + seq![q] + x + seq![q] + w2 =~= w1 + (core + w2));
    assert((core + w2)[0] == q);
    lemma_trim_start_ws(w1, core + w2);
    lemma_trim_end_ws(core, w2);
    assert(core.last() == q);
    assert(core.subrange(1, core.len() - 1) =~= x);
}

/// A command line whose first word has no whitespace splits into that word
/// and the rest of the line, unquoted; a line of one word has no argument.
pub proof fn lemma_split_word(word: Seq<char>, sep: char, rest: Seq<char>)
    requires
        word.len() > 0,
        forall|k: int| 0 <= k < word.len() ==> !is_ws(#[trigger] word[k]),
        is_ws(sep),
    ensures
        split_command_spec(word + seq![sep] + rest) == (word, unquote_spec(seq![sep] + rest)),
        split_command_spec(word) == (word, Seq::<char>::empty()),
{
    let line = word + seq![sep] + rest;
    assert forall|k: int| 0 <= k < word.len() implies !is_ws(#[trigger] line[k]) by {
        assert(line[k] == word[k]);
    }
    assert(line[word.len() as int] == sep);
    lemma_first_ws(line, word.len() as int);
    assert(line.take(word.len() as int) =~= word);
    assert(line.skip(word.len() as int) =~= seq![sep] + rest);
    lemma_first_ws(word, word.len() as int);
}

/// The formats a report can be printed in.
#[derive(Clone, Copy, Debug, PartialEq, Eq, Structural)]
pub enum ReportFormat {
    Text,
    Json,
}

/// The format that the argument of `report` names.
pub open spec fn spec_report_format(arg: Seq<char>) -> Result<ReportFormat, Seq<char>> {
    let w = lower_text(arg);
    if w.len() == 0 || w == "text"@ {
        Ok(ReportFormat::Text)
    } else if w == "json"@ {
        Ok(ReportFormat::Json)
    } else {
        Err("unknown format '"@ + w + "' (expected 'text' or 'json')"@)
    }
}

/// The report format named by the argument of `report` (empty means text).
pub fn report_format(arg: &str) -> (r: Result<ReportFormat, String>)
    ensures
        match r {
            Ok(f) => spec_report_format(arg@) == Ok::<ReportFormat, Seq<char>>(f),
            Err(m) => spec_report_format(arg@) == Err::<ReportFormat, Seq<char>>(m@),
        },
{
    let w = lowercase(arg);
    if w.as_str().is_empty() || text_eq(w.as_str(), "text") {
        Ok(ReportFormat::Text)
    } else if text_eq(w.as_str(), "json") {
        Ok(ReportFormat::Json)
    } else {
        let mut m = String::new();
        push_str(&mut m, "unknown format '");
        push_str(&mut m, w.as_str());
        push_str(&mut m, "' (expected 'text' or 'json')");
        Err(m)
    }
}

/// The port that the argument of `serve` names (empty means 8080).
pub open spec fn spec_port(arg: Seq<char>) -> Result<u16, Seq<char>> {
    if arg.len() == 0 {
        Ok(8080u16)
    } else if unsigned_in_range(arg, u16::MAX as int) {
        Ok(unsigned_value(arg).unwrap() as u16)
    } else {
        Err("invalid port '"@ + arg + "'"@)
    }
}

/// The port to serve on: 8080 by default, otherwise the argument as a `u16`.
pub fn parse_port(arg: &str) -> (r: Result<u16, String>)
    ensures
        match r {
            Ok(p) => spec_port(arg@) == Ok::<u16, Seq<char>>(p),
            Err(m) => spec_port(arg@) == Err::<u16, Seq<char>>(m@),
        },
{
    if arg.is_empty() {
        return Ok(8080);
    }
    match crate::numbers::parse_unsigned_exact(arg) {
        Some(v) => {
            if v <= 65535 {
                return Ok(v as u16);
            }
        },
        None => {},
    }
    let mut m = String::new();
    push_str(&mut m, "invalid port '");
    push_str(&mut m, arg);
    push_str(&mut m, "'");
    Err(m)
}

/// `n` spaces.
pub open spec fn spaces(n: nat) -> Seq<char> {
    Seq::new(n, |i: int| ' ')
}

/// The line that lists a sample model: its path padded to 38 characters,
/// then its node and element counts and its title.
pub open spec fn sample_line_spec(path: Seq<char>, nodes: nat, elements: nat, title: Seq<char>) -> Seq<
    char,
> {
    "  "@ + path + spaces(if path.len() < 38 {
        (38 - path.len()) as nat
    } else {
        0
    }) + " "@ + nat_text(nodes) + " nodes, "@ + nat_text(elements) + " elements \u{2014} "@ + title
}

/// The line that lists a sample model (`  {:<38} {} nodes, {} elements — {}`).
pub fn sample_line(path: &str, nodes: usize, elements: usize, title: &str) -> (line: String)
    ensures
        line@ == sample_line_spec(path@, nodes as nat, elements as nat, title@),
{
    let mut line = String::new();
    push_str(&mut line, "  ");
    push_str(&mut line, path);
    let n = path.unicode_len();
    let mut k: usize = n;
    let ghost start = line@;
    while k < 38
        invariant
            n == path@.len(),
            n <= k <= 38 || (k == n && n >= 38),
            line@ == start + spaces((k - n) as nat),
        decreases 38 - k,
    {
        push_char(&mut line, ' ');
        assert(spaces((k + 1 - n) as nat) =~= spaces((k - n) as nat).push(' '));
        k += 1;
    }
    assert(spaces((k - n) as nat) =~= spaces(if n < 38 {
        (38 - n) as nat
    } else {
        0
    }));
    push_str(&mut line, " ");
    push_usize(&mut line, nodes);
    push_str(&mut line, " nodes, ");
    push_usize(&mut line, elements);
    push_str(&mut line, " elements \u{2014} ");
    push_str(&mut line, title);
    line
}

} // verus!
