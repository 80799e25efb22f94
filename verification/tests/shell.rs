use spruce_grove::ansi::strip_ansi;
use spruce_grove::json::{Json, JsonNumber};
use spruce_grove::shell::{
    cli_choice, default_cwd_choice,
    boot_marker_file, boot_marker_text, bridge_probe_marker_name, bridge_probe_text, cli_command,
    cli_paths, console_json_text, dictation_extension, dictation_file_name, grove_repo_dirs,
    image_data_url, image_mime, list_dirs_payload, send_args, split_cli_prefix, split_words,
    transcript_text, version_text,
};

/// The compact JSON text of a value, members in the order they were built.
fn to_json_text(j: &Json) -> String {
    match j {
        Json::Null => "null".to_string(),
        Json::Bool(b) => b.to_string(),
        Json::Number(JsonNumber::PosInt(u)) => u.to_string(),
        Json::Number(JsonNumber::NegInt(i)) => i.to_string(),
        Json::Number(JsonNumber::Float(t)) => t.clone(),
        Json::Str(s) => serde_json::Value::String(s.clone()).to_string(),
        Json::Array(a) => format!("[{}]", a.iter().map(to_json_text).collect::<Vec<_>>().join(",")),
        Json::Object(m) => {
            let members: Vec<String> = m
                .iter()
                .map(|x| format!("{}:{}", serde_json::Value::String(x.key.clone()), to_json_text(&x.value)))
                .collect();
            format!("{{{}}}", members.join(","))
        }
    }
}

#[test]
fn strip_ansi_removes_sgr_sequences() {
    assert_eq!(strip_ansi("\u{1b}[32mOK\u{1b}[0m plain"), "OK plain");
}

/// The real `spruce-grove --version` line: an OSC color palette, then the version.
#[test]
fn strip_ansi_handles_osc_version_preamble() {
    let line = "\u{1b}]11;#1a1b26\u{7}\u{1b}]10;#c0caf5\u{7}\u{1b}]4;0;#15161e\u{7}1.0.76";
    assert_eq!(strip_ansi(line), "1.0.76");
}

#[test]
fn strip_ansi_keeps_plain_text_untouched() {
    let input = "brand-personal-guard: OK -- no leaks";
    assert_eq!(strip_ansi(input), input);
}

#[test]
fn strip_ansi_drops_mid_line_color_switches() {
    assert_eq!(strip_ansi("a\u{1b}[1;33mb\u{1b}[0mc"), "abc");
}

#[test]
fn transcribe_output_is_ansi_free() {
    let line = "\u{1b}]11;#1a1b26\u{7}\u{1b}]10;#c0caf5\u{7}Launch the desktop dictation loop.";
    assert_eq!(strip_ansi(line).trim(), "Launch the desktop dictation loop.");
}

#[test]
fn strip_ansi_edges() {
    // OSC ended by ST (ESC \), a two-character escape, an unterminated CSI
    assert_eq!(strip_ansi("a\u{1b}]0;title\u{1b}\\b"), "ab");
    assert_eq!(strip_ansi("x\u{1b}cy"), "xy");
    assert_eq!(strip_ansi("keep\u{1b}[12"), "keep");
    assert_eq!(strip_ansi("\u{1b}"), "");
}

#[test]
fn list_dirs_sorts_hides_dotfiles_and_reports_parent() {
    let names = vec![".hidden".to_string(), "zeta".to_string(), "alpha".to_string()];
    let out = list_dirs_payload("/tmp/grove-list", Some("/tmp"), &names);
    assert_eq!(
        to_json_text(&out),
        "{\"dirs\":[\"alpha\",\"zeta\"],\"parent\":\"/tmp\",\"path\":\"/tmp/grove-list\",\"total\":2}"
    );
    let root = list_dirs_payload("/", None, &vec![]);
    assert_eq!(to_json_text(&root), "{\"dirs\":[],\"parent\":null,\"path\":\"/\",\"total\":0}");
}

#[test]
fn list_dirs_caps_at_five_hundred() {
    let names: Vec<String> = (0..600).rev().map(|i| format!("d{i:03}")).collect();
    let out = list_dirs_payload("/x", None, &names);
    let text = to_json_text(&out);
    assert!(text.ends_with("\"total\":600}"));
    // the first 500 listed (d599 .. d100), sorted
    assert!(text.starts_with("{\"dirs\":[\"d100\",\"d101\""));
    assert!(!text.contains("\"d099\""));
}

#[test]
fn words_split_on_whitespace() {
    assert_eq!(split_words("  uv run\t--directory  /p spruce-grove \n"), vec!["uv", "run", "--directory", "/p", "spruce-grove"]);
    assert!(split_words("   ").is_empty());
    let cmd = split_cli_prefix("uv run spruce-grove").unwrap();
    assert_eq!(cmd.program, "uv");
    assert_eq!(cmd.prefix, vec!["run", "spruce-grove"]);
    assert!(split_cli_prefix(" \t").is_none());
    let cmd = cli_command(Some("grove --flag"), None, None);
    assert_eq!(cmd.program, "grove");
    assert_eq!(cmd.prefix, vec!["--flag"]);
    let cmd = cli_command(None, None, None);
    assert_eq!(cmd.program, "spruce-grove");
    assert!(cmd.prefix.is_empty());
}

#[test]
fn repo_dirs_and_cli_paths() {
    assert_eq!(
        grove_repo_dirs(Some("/fork"), Some("/home/me")),
        vec!["/fork", "/home/me/dev/SPRUCE-GROVE-OS", "/home/me/SPRUCE-GROVE-OS"]
    );
    assert_eq!(grove_repo_dirs(Some("  "), None), Vec::<String>::new());
    assert_eq!(
        cli_paths("/h", &vec!["/r".to_string()]),
        vec!["/h/.local/bin/spruce-grove", "/r/.venv/bin/spruce-grove"]
    );
    assert_eq!(
        send_args(&vec!["run".to_string()], true, "/w", "hi"),
        vec!["run", "--quick-resume", "/w", "--prompt", "hi", "--disable-ask-user-question"]
    );
    assert_eq!(send_args(&vec![], false, "/w", "hi"), vec!["--prompt", "hi", "--disable-ask-user-question"]);
}

#[test]
fn reading_the_cli_answers() {
    assert_eq!(version_text("\u{1b}]11;#1a1b26\u{7}1.0.76\n", ""), Ok("1.0.76".to_string()));
    assert_eq!(
        version_text("  ", " \u{1b}[31mboom\u{1b}[0m "),
        Err("no version output (stderr: boom)".to_string())
    );
    assert_eq!(transcript_text(false, "exit status: 1", "  ", ""), Err("transcribe failed (exit status: 1)".to_string()));
    assert_eq!(transcript_text(false, "exit status: 1", " no mic \n", ""), Err("no mic".to_string()));
    assert_eq!(transcript_text(true, "", "", "\u{1b}]10;#c0caf5\u{7} "), Err("transcript came back empty".to_string()));
    assert_eq!(transcript_text(true, "", "", " hello \n"), Ok("hello".to_string()));
    assert_eq!(console_json_text(true, "\u{1b}[0mimport noise [1, 2]", ""), Ok("[1, 2]".to_string()));
    assert_eq!(console_json_text(true, "no array", ""), Err("console output had no JSON array".to_string()));
    assert_eq!(console_json_text(false, "", " bad \n"), Err("console query failed (stderr: bad)".to_string()));
}

#[test]
fn dictation_and_images() {
    assert_eq!(dictation_extension(Some("audio/MP4")), "mp4");
    assert_eq!(dictation_extension(Some("audio/ogg;codecs=opus")), "ogg");
    assert_eq!(dictation_extension(Some("audio/webm")), "webm");
    assert_eq!(dictation_extension(None), "webm");
    assert_eq!(dictation_file_name(1700000000123, Some("audio/mp4")), "dictation-1700000000123.mp4");
    assert_eq!(image_mime("PNG"), Ok("image/png"));
    assert_eq!(image_mime("jpeg"), Ok("image/jpeg"));
    assert_eq!(image_mime("jpg"), Ok("image/jpeg"));
    assert_eq!(image_mime("gif"), Ok("image/gif"));
    assert_eq!(image_mime("webp"), Ok("image/webp"));
    assert_eq!(image_mime("BMP"), Err("unsupported image type: bmp".to_string()));
    assert_eq!(image_mime(""), Err("unsupported image type: ".to_string()));
    assert_eq!(image_data_url("image/png", b"hi"), Ok("data:image/png;base64,aGk=".to_string()));
    let big = vec![0u8; 20 * 1024 * 1024 + 1];
    assert_eq!(image_data_url("image/png", &big), Err("image too large".to_string()));
}

#[test]
fn boot_markers_are_safe_names() {
    assert_eq!(boot_marker_file("listen-ok"), "sg-boot-listen-ok.txt");
    assert_eq!(boot_marker_file("../etc/pass wd"), "sg-boot-___etc_pass_wd.txt");
    assert_eq!(boot_marker_text(42, Some("ready")), "42 ready");
    assert_eq!(boot_marker_text(0, None), "0 ");
    assert_eq!(bridge_probe_marker_name(1234), "spruce-grove-bridge-probe-1234");
    assert_eq!(bridge_probe_text(7), "ok 7");
}

#[test]
fn stripping_twice_is_stripping_once() {
    for s in ["\u{1b}[1m\u{1b}[1mx", "\u{1b}\u{1b}[31mred", "a\u{1b}]t\u{1b}\\\u{1b}b", "plain"] {
        let once = strip_ansi(s);
        assert!(!once.contains('\u{1b}'));
        assert_eq!(strip_ansi(&once), once);
    }
}

#[test]
fn the_cli_is_the_first_candidate_that_exists() {
    let paths = vec!["/h/.local/bin/spruce-grove".to_string(), "/r/.venv/bin/spruce-grove".to_string()];
    let c = cli_choice(None, &paths, &[false, true]);
    assert_eq!(c.program, "/r/.venv/bin/spruce-grove");
    assert!(c.prefix.is_empty());
    let c = cli_choice(None, &paths, &[true, true]);
    assert_eq!(c.program, "/h/.local/bin/spruce-grove");
    let c = cli_choice(None, &paths, &[false, false]);
    assert_eq!(c.program, "spruce-grove");
    let c = cli_choice(Some("uv run spruce-grove"), &paths, &[true, true]);
    assert_eq!(c.program, "uv");
    assert_eq!(c.prefix, vec!["run".to_string(), "spruce-grove".to_string()]);
    let c = cli_choice(Some("   "), &paths, &[false, true]);
    assert_eq!(c.program, "/r/.venv/bin/spruce-grove");
}

#[test]
fn the_default_cwd_is_the_first_checkout_that_is_a_directory() {
    let dirs = vec!["/a".to_string(), "/b".to_string()];
    assert_eq!(default_cwd_choice(&dirs, &[false, true], Some("/home/me")), "/b");
    assert_eq!(default_cwd_choice(&dirs, &[true, true], Some("/home/me")), "/a");
    assert_eq!(default_cwd_choice(&dirs, &[false, false], Some("/home/me")), "/home/me");
    assert_eq!(default_cwd_choice(&dirs, &[false, false], None), ".");
}

#[test]
fn stripping_only_removes_characters() {
    let input = "a\u{1b}[31mb\u{1b}]0;title\u{7}c\u{1b}Xd";
    let out = strip_ansi(input);
    assert_eq!(out, "abcd");
    let mut rest = input.chars();
    for c in out.chars() {
        assert!(rest.any(|x| x == c), "each kept character appears later in the input");
    }
}
