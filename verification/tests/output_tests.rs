use truss_fem::paths::is_sample_file;
use truss_fem::paths::{has_extension, strip_verbatim_prefix, with_extension};
use truss_fem::report::json_str;
use truss_fem::shell::{parse_command, parse_port, report_format, split_command, unquote, ReportFormat, ShellCommand};
use truss_fem::viewer::{build_html, html_escape, PAGE_HEAD, PAGE_TAIL};

#[test]
fn json_string_escapes() {
    assert_eq!(json_str("plain"), "\"plain\"");
    assert_eq!(json_str("a\"b\\c"), "\"a\\\"b\\\\c\"");
    assert_eq!(json_str("l1\nl2\r\t"), "\"l1\\nl2\\r\\t\"");
    assert_eq!(json_str("\u{1}\u{1f}"), "\"\\u0001\\u001f\"");
    assert_eq!(json_str("é ü"), "\"é ü\"");
}

#[test]
fn html_escape_markup() {
    assert_eq!(html_escape("a < b && c > d"), "a &lt; b &amp;&amp; c &gt; d");
    assert_eq!(html_escape("&lt;"), "&amp;lt;");
}

#[test]
fn html_page_holds_title_and_data() {
    let page = build_html("Bridge <1>", "{\"nodes\": []}");
    assert!(page.contains("Bridge &lt;1&gt;"));
    assert!(page.contains("const DATA = {\"nodes\": []};"));
    assert!(!page.contains("__TITLE__"));
    assert!(PAGE_HEAD.contains("__TITLE__") && PAGE_HEAD.ends_with("const DATA = "));
    assert!(PAGE_TAIL.starts_with(";"));
}

#[test]
fn placeholders_in_title_or_data_are_kept() {
    let json = "{\"title\": \"x __TITLE__ y\"}";
    let page = build_html("T __DATA__", json);
    assert!(page.contains(&format!("const DATA = {json};")));
    assert!(page.contains("<h1>T __DATA__</h1>"));
}

#[test]
fn command_line_splitting() {
    assert_eq!(split_command("load  \"my file.txt\" "), ("load", "my file.txt"));
    assert_eq!(split_command("solve"), ("solve", ""));
    assert_eq!(split_command("save 'out.json'"), ("save", "out.json"));
    assert_eq!(unquote("  \"a b\"  "), "a b");
    assert_eq!(unquote("\"x'"), "\"x'");
    assert_eq!(unquote("\""), "\"");
}

#[test]
fn command_words() {
    assert_eq!(parse_command("HELP"), ShellCommand::Help);
    assert_eq!(parse_command("?"), ShellCommand::Help);
    assert_eq!(parse_command("Quit"), ShellCommand::Exit);
    assert_eq!(parse_command("run"), ShellCommand::Solve);
    assert_eq!(parse_command("saveModel"), ShellCommand::SaveModel);
    assert_eq!(parse_command("save-model"), ShellCommand::SaveModel);
    assert_eq!(parse_command("ls"), ShellCommand::Samples);
    assert_eq!(parse_command("cls"), ShellCommand::Clear);
    assert_eq!(parse_command("frobnicate"), ShellCommand::Unknown);
}

#[test]
fn report_formats() {
    assert_eq!(report_format("").unwrap(), ReportFormat::Text);
    assert_eq!(report_format("TEXT").unwrap(), ReportFormat::Text);
    assert_eq!(report_format("Json").unwrap(), ReportFormat::Json);
    assert_eq!(report_format("XML").unwrap_err(), "unknown format 'xml' (expected 'text' or 'json')");
}

#[test]
fn ports() {
    assert_eq!(parse_port("").unwrap(), 8080);
    assert_eq!(parse_port("9000").unwrap(), 9000);
    assert_eq!(parse_port("65536").unwrap_err(), "invalid port '65536'");
    assert_eq!(parse_port(" 80").unwrap_err(), "invalid port ' 80'");
}

#[test]
fn extensions() {
    assert_eq!(with_extension("dir/model.txt", "html"), "dir/model.html");
    assert_eq!(with_extension("model", "html"), "model.html");
    assert!(has_extension("out.JSON", "json"));
    assert!(!has_extension("out.json.bak", "json"));
    assert!(!has_extension("json", "json"));
}

#[test]
fn verbatim_prefix() {
    assert_eq!(strip_verbatim_prefix(r"\\?\C:\models\a.html"), r"C:\models\a.html");
    assert_eq!(strip_verbatim_prefix("/home/a.html"), "/home/a.html");
}

#[test]
fn http_header_carries_the_length() {
    assert_eq!(
        truss_fem::viewer::response_header(1234),
        "HTTP/1.1 200 OK\r\nContent-Type: text/html; charset=utf-8\r\nContent-Length: 1234\r\nCache-Control: no-store\r\nConnection: close\r\n\r\n"
    );
}

/// Reads a JSON string literal as JSON does (no surrogate pairs needed here).
fn read_json_string(lit: &str) -> Option<String> {
    let inner = lit.strip_prefix('"')?.strip_suffix('"')?;
    let mut out = String::new();
    let mut chars = inner.chars();
    while let Some(c) = chars.next() {
        if c == '\\' {
            match chars.next()? {
                '"' => out.push('"'),
                '\\' => out.push('\\'),
                '/' => out.push('/'),
                'b' => out.push('\u{8}'),
                'f' => out.push('\u{c}'),
                'n' => out.push('\n'),
                'r' => out.push('\r'),
                't' => out.push('\t'),
                'u' => {
                    let hex: String = (0..4).map(|_| chars.next()).collect::<Option<String>>()?;
                    out.push(char::from_u32(u32::from_str_radix(&hex, 16).ok()?)?);
                }
                _ => return None,
            }
        } else if c == '"' || (c as u32) < 0x20 {
            return None;
        } else {
            out.push(c);
        }
    }
    Some(out)
}

#[test]
fn json_strings_read_back() {
    for s in ["", "plain", "q\"uote", "back\\slash", "tab\tnl\ncr\r", "\u{0}\u{1f}\u{7f}é✓", "a/b"] {
        let lit = truss_fem::report::json_str(s);
        assert_eq!(read_json_string(&lit).as_deref(), Some(s), "{lit}");
    }
}

#[test]
fn sample_files_by_extension() {
    assert!(is_sample_file("input/bridge.txt"));
    assert!(!is_sample_file("input/bridge.TXT"));
    assert!(!is_sample_file("input/bridge.json"));
    assert!(!is_sample_file("input/.txt"));
    assert!(!is_sample_file("input/notes"));
}

#[test]
fn sample_lines_are_padded() {
    assert_eq!(
        truss_fem::shell::sample_line("input/a.txt", 4, 3, "Bridge"),
        format!("  {:<38} {} nodes, {} elements — {}", "input/a.txt", 4, 3, "Bridge")
    );
    let long = "x".repeat(45);
    assert_eq!(
        truss_fem::shell::sample_line(&long, 1, 2, "T"),
        format!("  {:<38} {} nodes, {} elements — {}", long, 1, 2, "T")
    );
}
