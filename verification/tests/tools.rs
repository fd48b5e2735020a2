use base64::Engine;
use image::GenericImageView;
use pc::config::{SecurityConfig, SecurityMode};
use pc::time::{is_older, Span, Timestamp};
use pc::tools::access::{
    ensure_secret_access, ensure_writable, read_access, real_read_access, resolve_path,
    secret_locations, write_access, FileAccess, RealFile, Surroundings,
};
use pc::tools::bash::{
    bash_request, bash_summary, native_shell_command, new_entry, new_log_name, process_result,
    task_log_dir, BashParams, BashRequest, BashResult, SYNC_WAIT_SECS,
};
use pc::tools::edit::{apply_edits, edit_access, edit_result, EditParams, EditProblem, ReplaceEdit};
use pc::tools::image::{
    image_mime_type, plan_preview, prepare_image_preview, preview_extension, preview_from,
    preview_uri, read_image, PreviewPlan, MAX_IMAGE_BYTES,
};
use pc::tools::logs::{is_log, LogFile, LogSweep, LOG_RETENTION_SECS, MAX_LOG_DIR_BYTES};
use pc::tools::read::{read_result, read_text, text_file, ReadParams, ReadResult};
use pc::tools::registry::{ProcessEntry, ProcessRegistry, ProcessState};
use pc::tools::server::{instructions, protocol_versions, tells_caching};
use pc::tools::tail::{
    bound_output, bounded_tail, tail_start, MAX_OUTPUT_BYTES, MAX_OUTPUT_LINES,
    MAX_TAIL_READ_BYTES,
};
use pc::tools::write::{write_result, WriteParams};
use rmcp::model::ProtocolVersion;

fn edit(old: &str, new: &str) -> ReplaceEdit {
    ReplaceEdit { old_text: old.to_string(), new_text: new.to_string() }
}

fn security(mode: SecurityMode) -> SecurityConfig {
    SecurityConfig { mode, network: true, protect_secrets: true }
}

fn around(mode: SecurityMode, sandboxed: bool) -> Surroundings {
    Surroundings {
        workspace: "/work".to_string(),
        security: security(mode),
        sandboxed,
        home: Some("/home/u".to_string()),
    }
}

// ---------------------------------------------------------------------------------------
// The server

#[test]
fn advertises_mcpx_compatible_discovery_protocols() {
    let versions = protocol_versions();
    assert_eq!(
        versions,
        [
            ProtocolVersion::V_2026_07_28,
            ProtocolVersion::V_2025_11_25,
            ProtocolVersion::V_2025_06_18,
            ProtocolVersion::V_2025_03_26,
            ProtocolVersion::V_2024_11_05,
        ]
        .map(|v| v.as_str().to_string())
    );
}

#[test]
fn only_modern_clients_are_told_about_caching() {
    for version in ProtocolVersion::KNOWN_VERSIONS {
        assert_eq!(
            tells_caching(&Some(version.as_str().to_string())),
            *version >= ProtocolVersion::V_2026_07_28
        );
    }
    assert!(tells_caching(&Some("2027-01-01".to_string())));
    assert!(!tells_caching(&Some("2026-07-2".to_string())));
    assert!(!tells_caching(&Some(String::new())));
    assert!(!tells_caching(&None));
}

#[test]
fn instructions_name_the_security_mode() {
    for mode in [SecurityMode::Full, SecurityMode::Safe, SecurityMode::Readonly] {
        assert_eq!(
            instructions(mode),
            format!("Four tools: read/write/edit/bash. Security={mode:?}. Long bash commands detach after 2s; attach by pid.")
        );
    }
}

// ---------------------------------------------------------------------------------------
// Access to files

#[test]
fn secrets_are_blocked_in_readonly_mode() {
    let a = around(SecurityMode::Readonly, false);
    for place in secret_locations() {
        for path in [format!("/home/u/{place}"), format!("/home/u/{place}/x")] {
            assert_eq!(
                read_access(&a, &path).unwrap_err(),
                format!("access to {path} is blocked by protect_secrets")
            );
        }
    }
    assert!(matches!(read_access(&a, "/home/u/.sshd"), Ok(FileAccess::Host(p)) if p == "/home/u/.sshd"));
    assert!(matches!(read_access(&a, "src/a.rs"), Ok(FileAccess::Host(p)) if p == "/work/src/a.rs"));
    let home = Some("/home/u".to_string());
    assert!(ensure_secret_access("/home/u//.ssh/./id", true, &home).is_err());
    assert!(ensure_secret_access("/home/u/.ssh", false, &home).is_ok());
    assert!(ensure_secret_access("/home/u/.ssh", true, &None).is_ok());
    assert!(matches!(
        read_access(&around(SecurityMode::Full, false), "/home/u/.ssh"),
        Ok(FileAccess::Host(_))
    ));
}

#[test]
fn going_up_does_not_reach_secrets() {
    let home = Some("/home/u".to_string());
    for path in [
        "/home/u/work/../.ssh/id_rsa",
        "/home/u/a/b/../../.ssh",
        "/../home/x/../u/.aws/credentials",
        "/home/u/.ssh/../.netrc",
        "/home/u/.ssh/../work",
    ] {
        assert_eq!(
            ensure_secret_access(path, true, &home),
            Err(format!("access to {path} is blocked by protect_secrets"))
        );
        assert!(ensure_secret_access(path, false, &home).is_ok());
    }
    for path in ["/home/u/work/../.sshd", "/home/u/../v/.ssh", "/home/u/work/../../.ssh"] {
        assert!(ensure_secret_access(path, true, &home).is_ok());
    }
    let dotted = Some("/home/x/../u".to_string());
    assert!(ensure_secret_access("/home/u/.ssh", true, &dotted).is_err());

    let mut a = around(SecurityMode::Readonly, false);
    a.workspace = "/home/u/work".to_string();
    assert_eq!(
        read_access(&a, "../.ssh/id_rsa").unwrap_err(),
        "access to /home/u/work/../.ssh/id_rsa is blocked by protect_secrets"
    );
    assert!(matches!(read_access(&a, "../src/a.rs"), Ok(FileAccess::Host(_))));
}

#[test]
fn links_do_not_reach_secrets() {
    let file = |path: &str| {
        Some(RealFile {
            path: path.to_string(),
            home: Some("/mnt/homes/u".to_string()),
            secrets: vec!["/vault/ssh".to_string()],
        })
    };
    let a = around(SecurityMode::Readonly, false);
    for path in ["/home/u/.ssh/id", "/mnt/homes/u/.aws", "/vault/ssh/id"] {
        assert_eq!(
            real_read_access(&a, "link", &file(path)).unwrap_err(),
            "access to /work/link is blocked by protect_secrets"
        );
    }
    assert!(real_read_access(&a, "/home/u/.ssh", &file("/elsewhere")).is_err());
    for found in [file("/work/a.rs"), None] {
        assert!(matches!(
            real_read_access(&a, "a.rs", &found),
            Ok(FileAccess::Host(p)) if p == "/work/a.rs"
        ));
    }
    let secret = file("/vault/ssh/id");
    let full = around(SecurityMode::Full, false);
    assert!(matches!(real_read_access(&full, "link", &secret), Ok(FileAccess::Host(_))));
    let safe = around(SecurityMode::Safe, true);
    assert!(matches!(real_read_access(&safe, "link", &secret), Ok(FileAccess::Sandbox)));
    let mut open = around(SecurityMode::Readonly, false);
    open.security.protect_secrets = false;
    assert!(matches!(real_read_access(&open, "link", &secret), Ok(FileAccess::Host(_))));
}

#[test]
fn access_follows_the_security_mode() {
    assert!(matches!(read_access(&around(SecurityMode::Safe, true), "a"), Ok(FileAccess::Sandbox)));
    assert_eq!(
        read_access(&around(SecurityMode::Safe, false), "a").unwrap_err(),
        "safe sandbox is not running"
    );
    assert!(matches!(
        write_access(&around(SecurityMode::Safe, true), "a", "write"),
        Ok(FileAccess::Sandbox)
    ));
    assert_eq!(
        write_access(&around(SecurityMode::Safe, false), "a", "write").unwrap_err(),
        "safe sandbox is not running"
    );
    assert!(matches!(
        write_access(&around(SecurityMode::Full, false), "/x", "write"),
        Ok(FileAccess::Host(p)) if p == "/x"
    ));
    assert_eq!(
        write_access(&around(SecurityMode::Readonly, false), "a", "write").unwrap_err(),
        "write is disabled in readonly mode"
    );
    assert_eq!(
        ensure_writable(SecurityMode::Readonly, "edit"),
        Err("edit is disabled in readonly mode".to_string())
    );
    assert_eq!(resolve_path("/work", "../x"), "/work/../x");
}

// ---------------------------------------------------------------------------------------
// Writing and editing

#[test]
fn write_reports_bytes() {
    let (message, output) = write_result(&WriteParams {
        path: "a.txt".to_string(),
        content: "h\u{e9}\u{1f600}".to_string(),
    });
    assert_eq!(message, "Successfully wrote to a.txt");
    assert_eq!(output.path, "a.txt");
    assert_eq!(output.bytes, 7);
}

#[test]
fn edits_replace_exactly_once() {
    assert_eq!(
        apply_edits("one two three", &vec![edit("three", "3"), edit("one", "")]),
        Ok(" two 3".to_string())
    );
    assert_eq!(
        apply_edits("one two three", &vec![edit("one", ""), edit("three", "3")]),
        Ok(" two 3".to_string())
    );
    assert_eq!(apply_edits("ab", &vec![edit("a", "b"), edit("b", "a")]), Ok("ba".to_string()));
    assert_eq!(apply_edits("\u{e9}x", &vec![edit("x", "\u{1f600}")]), Ok("\u{e9}\u{1f600}".to_string()));
    assert_eq!(apply_edits("same", &vec![edit("same", "same")]), Ok("same".to_string()));
}

#[test]
fn edit_problems_are_reported() {
    assert_eq!(apply_edits("x", &vec![edit("", "y")]), Err(EditProblem::EmptyOldText));
    assert_eq!(apply_edits("x", &vec![edit("y", "")]), Err(EditProblem::MatchCount(0)));
    assert_eq!(apply_edits("xx", &vec![edit("x", "")]), Err(EditProblem::MatchCount(2)));
    assert_eq!(apply_edits("aaa", &vec![edit("aa", "b")]), Ok("ba".to_string()));
    assert_eq!(apply_edits("aaaa", &vec![edit("aa", "b")]), Err(EditProblem::MatchCount(2)));
    assert_eq!(
        apply_edits("abc", &vec![edit("bc", ""), edit("ab", "")]),
        Err(EditProblem::Overlap)
    );
    assert_eq!(
        apply_edits("abc", &vec![edit("b", "1"), edit("b", "2")]),
        Err(EditProblem::Overlap)
    );
    assert_eq!(
        apply_edits("ab", &vec![edit("b", "1"), edit("z", "2"), edit("", "2")]),
        Err(EditProblem::MatchCount(0))
    );
    assert_eq!(EditProblem::EmptyOldText.message(), "edits[].oldText must not be empty");
    assert_eq!(
        EditProblem::MatchCount(2).message(),
        "edits[].oldText must match exactly once; matched 2 times"
    );
    assert_eq!(
        EditProblem::Overlap.message(),
        "edits overlap; merge nearby edits into one replacement"
    );
}

#[test]
fn edits_agree_with_std() {
    let text = "the cat sat on the mat; caf\u{e9} at the inn";
    for old in ["cat", "the", "at", " ", "e", "\u{e9}", "inn", "t t", "zzz", "he m"] {
        let expected = text.matches(old).count();
        let result = apply_edits(text, &vec![edit(old, "*")]);
        if expected == 1 {
            assert_eq!(result, Ok(text.replacen(old, "*", 1)));
        } else {
            assert_eq!(result, Err(EditProblem::MatchCount(expected)));
        }
    }
}

#[test]
fn edit_requests_are_checked() {
    let none = EditParams { path: "a".to_string(), edits: vec![] };
    assert_eq!(
        edit_access(&around(SecurityMode::Full, false), &none).unwrap_err(),
        "edits must not be empty"
    );
    assert_eq!(
        edit_access(&around(SecurityMode::Readonly, false), &none).unwrap_err(),
        "edit is disabled in readonly mode"
    );
    let one = EditParams { path: "a".to_string(), edits: vec![edit("a", "b")] };
    assert!(matches!(
        edit_access(&around(SecurityMode::Full, false), &one),
        Ok(FileAccess::Host(p)) if p == "/work/a"
    ));
    assert_eq!(
        edit_access(&around(SecurityMode::Safe, false), &one).unwrap_err(),
        "safe sandbox is not running"
    );
    let (message, output) = edit_result(&one, "b\u{e9}");
    assert_eq!(message, "Successfully applied 1 edit(s) to a");
    assert_eq!((output.path.as_str(), output.edits_applied, output.bytes), ("a", 1, 3));
}

// ---------------------------------------------------------------------------------------
// Reading text

#[test]
fn text_is_read_by_lines() {
    let text = "a\nb\r\nc\n";
    assert_eq!(read_text(text, None, None), "a\nb\nc");
    assert_eq!(read_text(text, Some(2), None), "b\nc");
    assert_eq!(read_text(text, Some(2), Some(1)), "b");
    assert_eq!(read_text(text, Some(0), Some(1)), "a");
    assert_eq!(read_text(text, Some(4), None), "");
    assert_eq!(read_text(text, Some(usize::MAX), Some(usize::MAX)), "");
    assert_eq!(read_text(text, Some(2), Some(usize::MAX)), "b\nc");
    assert_eq!(read_text(text, None, Some(0)), "");
    assert_eq!(read_text("", None, None), "");
    // Empty lines before the first one that holds something leave no trace.
    assert_eq!(read_text("\n\nx", None, None), "x");
}

#[test]
fn long_text_is_read_in_pages() {
    let text: String = (1..=4500).map(|i| format!("line {i}\n")).collect();
    let page = read_text(&text, None, None);
    let note = "\n\n[Output truncated. Continue reading with offset=2001.]";
    assert!(page.ends_with(note));
    let body = page.strip_suffix(note).unwrap();
    assert_eq!(body.lines().count(), MAX_OUTPUT_LINES);
    let mut all: Vec<String> = Vec::new();
    let mut offset: usize = 1;
    loop {
        let page = read_text(&text, Some(offset), None);
        match page.split_once("\n\n[Output truncated. Continue reading with offset=") {
            Some((body, rest)) => {
                all.extend(body.lines().map(str::to_string));
                offset = rest.strip_suffix(".]").unwrap().parse().unwrap();
            }
            None => {
                all.extend(page.lines().map(str::to_string));
                break;
            }
        }
    }
    assert_eq!(all, text.lines().collect::<Vec<_>>());

    let wide: String = (0..100).map(|_| "x".repeat(1023) + "\n").collect();
    let page = read_text(&wide, None, None);
    let body = page
        .strip_suffix("\n\n[Output truncated. Continue reading with offset=51.]")
        .unwrap();
    assert_eq!(body.len(), 50 * 1024 - 1);
    assert!(body.len() <= MAX_OUTPUT_BYTES);
    // A first line over the limit is never shown.
    assert_eq!(
        read_text(&"y".repeat(51_201), None, None),
        "\n\n[Output truncated. Continue reading with offset=1.]"
    );
}

#[test]
fn text_files_are_utf8() {
    assert_eq!(text_file("h\u{e9}".as_bytes().to_vec(), "a"), Ok("h\u{e9}".to_string()));
    assert_eq!(text_file(vec![0xff, 0xfe], "a.bin"), Err("a.bin is not a UTF-8 text file".to_string()));
    let input = ReadParams { path: "a.txt".to_string(), offset: Some(2), limit: Some(1) };
    match read_result(b"one\ntwo\nthree".to_vec(), &input).unwrap() {
        ReadResult::Text(text, output) => {
            assert_eq!(text, "two");
            assert_eq!(output.mime_type, "text/plain; charset=utf-8");
            assert_eq!(output.bytes, 13);
            assert_eq!(output.path, "a.txt");
        }
        other => panic!("{other:?}"),
    }
    assert_eq!(
        read_result(vec![0xff], &input).unwrap_err(),
        "a.txt is not a UTF-8 text file"
    );
}

// ---------------------------------------------------------------------------------------
// Reading images

#[test]
fn detects_supported_image_formats_by_content() {
    assert_eq!(image_mime_type(b"\x89PNG\r\n\x1a\nrest"), Some("image/png"));
    assert_eq!(image_mime_type(b"\xff\xd8\xffrest"), Some("image/jpeg"));
    assert_eq!(
        image_mime_type(b"RIFF\x00\x00\x00\x00WEBPrest"),
        Some("image/webp")
    );
    assert_eq!(image_mime_type(b"GIF89arest"), Some("image/gif"));
    assert_eq!(image_mime_type(b"plain text"), None);
}

#[test]
fn image_formats_need_their_whole_signature() {
    assert_eq!(image_mime_type(b"GIF87a"), Some("image/gif"));
    assert_eq!(image_mime_type(b"GIF88a"), None);
    assert_eq!(image_mime_type(b"\x89PNG\r\n\x1a"), None);
    assert_eq!(image_mime_type(b"RIFF\x00\x00\x00\x00WEB"), None);
    assert_eq!(image_mime_type(b"\xff\xd8"), None);
    assert_eq!(image_mime_type(b""), None);
}

fn encode(image: image::DynamicImage, format: image::ImageFormat) -> Vec<u8> {
    let mut cursor = std::io::Cursor::new(Vec::new());
    image.write_to(&mut cursor, format).expect("encode image");
    cursor.into_inner()
}

fn encode_test_png(width: u32, height: u32) -> Vec<u8> {
    encode(image::DynamicImage::new_rgb8(width, height), image::ImageFormat::Png)
}

fn read_params(path: &str) -> ReadParams {
    ReadParams { path: path.to_string(), offset: None, limit: None }
}

fn decode(blob: &str) -> Vec<u8> {
    base64::engine::general_purpose::STANDARD.decode(blob).expect("decode embedded blob")
}

#[test]
fn read_small_image_returns_original_as_embedded_resource_only() {
    let image_bytes = encode_test_png(640, 320);
    match read_result(image_bytes.clone(), &read_params("test.png")).expect("read image") {
        ReadResult::Image(metadata, resource) => {
            assert_eq!(metadata.path, "test.png");
            assert_eq!(metadata.original_mime_type, "image/png");
            assert_eq!(metadata.original_bytes, image_bytes.len());
            assert_eq!(metadata.original_width, 640);
            assert_eq!(metadata.original_height, 320);
            assert_eq!(metadata.preview_bytes, image_bytes.len());
            assert_eq!(metadata.preview_width, 640);
            assert_eq!(metadata.preview_height, 320);
            assert_eq!(metadata.preview_mime_type, "image/png");
            assert!(!metadata.resized);
            assert!(resource.uri.starts_with("pc://read-image/"));
            assert!(resource.uri.ends_with("/preview.png"));
            assert_eq!(resource.mime_type, "image/png");
            assert_eq!(decode(&resource.blob), image_bytes);
        }
        other => panic!("{other:?}"),
    }
}

#[test]
fn read_large_image_downscales_preview_without_modifying_original() {
    let image_bytes = encode_test_png(4096, 1024);
    match read_result(image_bytes.clone(), &read_params("large.png")).expect("read large image") {
        ReadResult::Image(metadata, resource) => {
            assert_eq!(metadata.original_bytes, image_bytes.len());
            assert_eq!(metadata.original_width, 4096);
            assert_eq!(metadata.original_height, 1024);
            assert_eq!(metadata.preview_width, 2048);
            assert_eq!(metadata.preview_height, 512);
            assert_eq!(metadata.preview_mime_type, "image/jpeg");
            assert!(metadata.resized);
            assert!(resource.uri.ends_with("/preview.jpg"));
            assert_eq!(resource.mime_type, "image/jpeg");
            let preview_bytes = decode(&resource.blob);
            assert_eq!(metadata.preview_bytes, preview_bytes.len());
            let preview =
                image::load_from_memory_with_format(&preview_bytes, image::ImageFormat::Jpeg)
                    .expect("decode preview JPEG");
            assert_eq!(preview.dimensions(), (2048, 512));
        }
        other => panic!("{other:?}"),
    }
}

#[test]
fn large_transparent_image_becomes_a_png_preview() {
    let bytes = encode(image::DynamicImage::new_rgba8(10, 4100), image::ImageFormat::Png);
    let preview = prepare_image_preview(&bytes, "image/png").unwrap();
    assert_eq!(preview.mime_type, "image/png");
    assert_eq!((preview.original_width, preview.original_height), (10, 4100));
    assert_eq!((preview.width, preview.height), (5, 2048));
    assert!(preview.resized);
    let decoded =
        image::load_from_memory_with_format(&preview.bytes, image::ImageFormat::Png).unwrap();
    assert_eq!(decoded.dimensions(), (preview.width, preview.height));
}

#[test]
fn every_format_is_previewed() {
    for (format, mime, ending) in [
        (image::ImageFormat::Png, "image/png", "png"),
        (image::ImageFormat::Jpeg, "image/jpeg", "jpg"),
        (image::ImageFormat::WebP, "image/webp", "webp"),
        (image::ImageFormat::Gif, "image/gif", "gif"),
    ] {
        let bytes = encode(image::DynamicImage::new_rgb8(3, 2), format);
        assert_eq!(image_mime_type(&bytes), Some(mime));
        let (metadata, resource) = read_image(&bytes, "p", mime).unwrap();
        assert_eq!((metadata.original_width, metadata.original_height), (3, 2));
        assert_eq!(decode(&resource.blob), bytes);
        assert!(resource.uri.ends_with(&format!("/preview.{ending}")));
        assert_eq!(preview_extension(mime), ending);
    }
    assert_eq!(preview_extension("text/plain"), "bin");
    assert_eq!(preview_uri("id", "image/gif"), "pc://read-image/id/preview.gif");
}

#[test]
fn image_problems_are_reported() {
    let broken = b"\x89PNG\r\n\x1a\nrest".to_vec();
    let expected = image::load_from_memory_with_format(&broken, image::ImageFormat::Png)
        .unwrap_err()
        .to_string();
    assert_eq!(
        prepare_image_preview(&broken, "image/png").unwrap_err(),
        format!("decode image/png image: {expected}")
    );
    assert_eq!(
        prepare_image_preview(&broken, "image/bmp").unwrap_err(),
        "unsupported image MIME type: image/bmp"
    );
    assert_eq!(
        preview_from(Err("no".to_string()), true, (1, 2)).unwrap_err(),
        "encode PNG image preview: no"
    );
    assert_eq!(
        preview_from(Err("no".to_string()), false, (1, 2)).unwrap_err(),
        "encode JPEG image preview: no"
    );
    let mut huge = b"GIF89a".to_vec();
    huge.resize(MAX_IMAGE_BYTES + 1, 0);
    assert_eq!(
        read_result(huge, &read_params("x.gif")).unwrap_err(),
        "x.gif is a image/gif image larger than the 25 MiB read limit"
    );
}

#[test]
fn previews_are_planned_by_size_and_transparency() {
    assert_eq!(plan_preview(2048, 2048, true), PreviewPlan::Original);
    assert_eq!(plan_preview(2049, 1, true), PreviewPlan::Png);
    assert_eq!(plan_preview(1, 2049, false), PreviewPlan::Jpeg);
}

// ---------------------------------------------------------------------------------------
// Commands

#[test]
fn bash_result_does_not_duplicate_full_output_in_text_content() {
    let result = BashResult {
        status: "exited",
        pid: 7,
        exit_code: Some(0),
        output: "very large output body".to_string(),
        full_output_path: Some("/tmp/task.log".to_string()),
        truncated: false,
        instruction: None,
    };
    let text = bash_summary(&result);
    assert!(!text.contains("very large output body"));
    assert_eq!(result.output, "very large output body");
    assert_eq!(text, "exited pid=7 exit_code=0 log=/tmp/task.log");
}

#[test]
fn summaries_leave_out_what_is_unknown() {
    let mut result = BashResult {
        status: "running",
        pid: 4294967295,
        exit_code: None,
        output: String::new(),
        full_output_path: None,
        truncated: false,
        instruction: None,
    };
    assert_eq!(bash_summary(&result), "running pid=4294967295 log=-");
    result.exit_code = Some(-1);
    assert_eq!(bash_summary(&result), "running pid=4294967295 exit_code=-1 log=-");
}

#[test]
fn bash_takes_a_command_or_a_pid() {
    let call = |mode, command: Option<&str>, pid| {
        bash_request(mode, BashParams { command: command.map(str::to_string), pid })
    };
    assert!(matches!(call(SecurityMode::Full, Some("ls"), None), Ok(BashRequest::Start(c)) if c == "ls"));
    assert!(matches!(call(SecurityMode::Safe, None, Some(3)), Ok(BashRequest::Attach(3))));
    for (command, pid) in [(None, None), (Some("ls"), Some(3))] {
        assert_eq!(
            call(SecurityMode::Full, command, pid).unwrap_err(),
            "provide exactly one of command or pid"
        );
    }
    assert_eq!(
        call(SecurityMode::Readonly, Some("ls"), None).unwrap_err(),
        "bash is disabled in readonly mode"
    );
    assert_eq!(SYNC_WAIT_SECS, 2);
}

#[test]
fn shells_are_chosen_by_platform() {
    let unix = native_shell_command("echo $HOME", false);
    assert_eq!((unix.program, unix.args), ("bash", vec!["-lc".to_string(), "echo $HOME".to_string()]));
    let windows = native_shell_command("dir", true);
    assert_eq!(windows.program, "cmd.exe");
    assert_eq!(windows.args, ["/D", "/S", "/C", "dir"]);
    assert_eq!(task_log_dir(&None, "/tmp"), "/tmp/pc/tasks");
    assert_eq!(task_log_dir(&Some("/tmp/sandbox".to_string()), "/tmp"), "/tmp/sandbox/pc/tasks");
    let name = new_log_name();
    assert_eq!(name.len(), 40);
    assert!(is_log(&name));
    assert_ne!(name, new_log_name());
}

#[test]
fn process_is_followed_from_start_to_end() {
    let mut registry = ProcessRegistry::default();
    assert_eq!(registry.attach(9).unwrap_err(), "unknown pid 9");
    registry.insert(new_entry(9, "/tmp/a.log".to_string()));
    let entry = registry.attach(9).unwrap();
    assert_eq!(entry.log_path, "/tmp/a.log");
    let running = process_result(&entry, "so far".to_string(), true);
    assert_eq!((running.status, running.pid, running.exit_code), ("running", 9, None));
    assert_eq!(running.output, "so far");
    assert_eq!(running.full_output_path.as_deref(), Some("/tmp/a.log"));
    assert!(running.truncated);
    assert_eq!(
        running.instruction,
        Some("Still running. Continue other work and attach this pid later.")
    );
    registry.finish(9, "/tmp/other.log", Some(1));
    assert!(!registry.get(9).unwrap().state.finished);
    registry.finish(9, "/tmp/a.log", Some(3));
    let done = process_result(&registry.attach(9).unwrap(), "all".to_string(), false);
    assert_eq!((done.status, done.exit_code, done.instruction), ("exited", Some(3), None));
    assert_eq!(registry.entries().len(), 1);
    registry.forget(&vec![1, 9]);
    assert!(registry.get(9).is_none());
    assert!(registry.entries().is_empty());
}

// ---------------------------------------------------------------------------------------
// The end of a log

#[test]
fn bounded_tail_reads_only_a_bounded_suffix() {
    let mut content = String::new();
    for index in 0..20_000 {
        content.push_str(&format!("line-{index:05} payload payload payload\n"));
    }
    let bytes = content.into_bytes();
    let start = tail_start(bytes.len() as u64);
    assert_eq!(bytes.len() as u64 - start, MAX_TAIL_READ_BYTES);
    let (tail, truncated) = bounded_tail(&bytes[start as usize..].to_vec(), start, "/tmp/large.log");
    assert!(truncated);
    assert!(tail.len() <= MAX_OUTPUT_BYTES + 256);
    assert!(tail.contains("line-19999"));
    assert!(tail.starts_with("line-"));
    assert!(tail.ends_with("\n\n[Output truncated. Full output: /tmp/large.log]"));
}

#[test]
fn small_output_is_shown_whole() {
    assert_eq!(tail_start(131_072), 0);
    assert_eq!(tail_start(131_073), 1);
    assert_eq!(bounded_tail(&b"a\nb\r\n".to_vec(), 0, "p"), ("a\nb\r\n".to_string(), false));
    assert_eq!(bounded_tail(&vec![b'a', 0xff, b'b'], 0, "p"), ("a\u{fffd}b".to_string(), false));
}

#[test]
fn cut_output_starts_at_a_line() {
    let note = "\n\n[Output truncated. Full output: p]";
    assert_eq!(bounded_tail(&b"rest\nb\n".to_vec(), 5, "p"), (format!("b\n{note}"), true));
    assert_eq!(bounded_tail(&b"rest".to_vec(), 5, "p"), (format!("rest{note}"), true));
    let many: String = (0..2001).map(|i| format!("{i}\n")).collect();
    let (out, cut) = bound_output(&many, false, "p");
    assert!(cut);
    assert!(out.starts_with("1\n2\n"));
    assert!(out.ends_with(&format!("1999\n2000{note}")));
    // Over the limit in bytes, with a character that must not be split.
    let wide = "\u{e9}".repeat(25_601);
    let (out, cut) = bound_output(&wide, false, "p");
    assert!(cut);
    assert_eq!(out, format!("{}{note}", "\u{e9}".repeat(25_600)));
    let odd = format!("\u{e9}{}", "a".repeat(51_199));
    assert_eq!(bound_output(&odd, false, "p").0, format!("{}{note}", "a".repeat(51_199)));
    assert!(!bound_output(&"a".repeat(51_200), false, "p").1);
}

// ---------------------------------------------------------------------------------------
// Clearing logs

fn log(path: &str, bytes: u64, secs: i64) -> LogFile {
    LogFile { path: path.to_string(), bytes, modified: Timestamp { secs, nanos: 0 } }
}

/// Runs a sweep in which the given files cannot be removed.
fn sweep(
    files: Vec<LogFile>,
    registry: &ProcessRegistry,
    retention: u64,
    max_bytes: u64,
    stuck: &[&str],
) -> (Vec<String>, Vec<u32>) {
    let now = Timestamp { secs: 1_000, nanos: 0 };
    let mut sweep =
        LogSweep::new(files, registry, now, Span { secs: retention, nanos: 0 }, max_bytes);
    let mut removed = Vec::new();
    while let Some(path) = sweep.next() {
        let ok = !stuck.contains(&path.as_str());
        sweep.report(ok);
        if ok {
            removed.push(path);
        }
    }
    (removed, sweep.forgotten().clone())
}

#[test]
fn log_cleanup_preserves_active_logs_and_enforces_quota() {
    let mut registry = ProcessRegistry::default();
    registry.insert(ProcessEntry {
        pid: 42,
        log_path: "/logs/active.log".to_string(),
        visible_log_path: "/logs/active.log".to_string(),
        state: ProcessState { finished: false, exit_code: None },
    });
    let (removed, _) = sweep(
        vec![log("/logs/stale.log", 5, 1_000), log("/logs/active.log", 6, 1_000)],
        &registry,
        0,
        u64::MAX,
        &[],
    );
    assert_eq!(removed, ["/logs/stale.log"]);

    let files = vec![
        log("/logs/active.log", 6, 1_000),
        log("/logs/q1.log", 10, 1_000),
        log("/logs/q2.log", 10, 1_000),
    ];
    let (removed, _) = sweep(files, &registry, 3_600, 16, &[]);
    let total = 26 - 10 * removed.len();
    assert!(total <= 16, "active log is protected; non-active logs must be pruned");
    assert!(!removed.contains(&"/logs/active.log".to_string()));
}

#[test]
fn oldest_logs_go_first() {
    let registry = ProcessRegistry::default();
    let files = || {
        vec![log("/l/c.log", 10, 30), log("/l/a.log", 10, 10), log("/l/b.log", 10, 20)]
    };
    assert_eq!(sweep(files(), &registry, 5_000, 30, &[]).0, Vec::<String>::new());
    assert_eq!(sweep(files(), &registry, 5_000, 29, &[]).0, ["/l/a.log"]);
    assert_eq!(sweep(files(), &registry, 5_000, 10, &[]).0, ["/l/a.log", "/l/b.log"]);
    assert_eq!(sweep(files(), &registry, 5_000, 10, &["/l/a.log"]).0, ["/l/b.log", "/l/c.log"]);
    // What is old goes in the order in which it was found; what remains then fits.
    assert_eq!(sweep(files(), &registry, 980, 10, &[]).0, ["/l/a.log", "/l/b.log"]);
}

#[test]
fn processes_are_forgotten_with_their_logs() {
    let mut registry = ProcessRegistry::default();
    registry.insert(new_entry(1, "/l/a.log".to_string()));
    registry.insert(new_entry(2, "/l/./b.log".to_string()));
    registry.insert(new_entry(3, "/l/c.log".to_string()));
    registry.finish(1, "/l/a.log", None);
    registry.finish(2, "/l/./b.log", Some(0));
    let files = vec![log("/l/a.log", 1, 0), log("/l/b.log", 1, 0), log("/l/c.log", 1, 0)];
    let (removed, forgotten) = sweep(files, &registry, 1_000, 0, &["/l/a.log"]);
    assert_eq!(removed, ["/l/b.log"]);
    assert_eq!(forgotten, [2]);
    registry.forget(&forgotten);
    assert!(registry.get(1).is_some() && registry.get(2).is_none() && registry.get(3).is_some());
}

#[test]
fn logs_are_known_by_their_extension() {
    for (name, expected) in [
        ("a.log", true),
        ("a.b.log", true),
        (".log", false),
        ("a.logs", false),
        ("log", false),
        ("a.LOG", false),
        ("..log", true),
        ("", false),
    ] {
        assert_eq!(is_log(name), expected, "{name}");
        assert_eq!(
            std::path::Path::new(name).extension().and_then(|e| e.to_str()) == Some("log"),
            expected
        );
    }
    assert_eq!(LOG_RETENTION_SECS, 24 * 60 * 60);
    assert_eq!(MAX_LOG_DIR_BYTES, 256 * 1024 * 1024);
}

#[test]
fn age_is_counted_from_the_last_change() {
    let at = |secs, nanos| Timestamp { secs, nanos };
    let span = Span { secs: 2, nanos: 500 };
    assert!(is_older(&at(10, 500), &at(8, 0), &span));
    assert!(!is_older(&at(10, 499), &at(8, 0), &span));
    assert!(!is_older(&at(1, 0), &at(8, 0), &span));
    assert!(is_older(&at(1, 0), &at(8, 0), &Span { secs: 0, nanos: 0 }));
    assert!(is_older(&at(1, 0), &at(-8, 0), &span));
}

#[test]
fn pages_show_every_line_once() {
    let text: String = (0..5000).map(|i| format!("line {i} {}\n", "x".repeat(i % 60))).collect();
    let mut seen: Vec<String> = Vec::new();
    let mut offset: Option<usize> = None;
    let mut calls = 0;
    loop {
        let shown = read_text(&text, offset, None);
        calls += 1;
        match shown.split_once("\n\n[Output truncated. Continue reading with offset=") {
            Some((body, note)) => {
                assert!(body.len() <= MAX_OUTPUT_BYTES);
                assert!(body.lines().count() <= MAX_OUTPUT_LINES);
                seen.extend(body.lines().map(String::from));
                offset = note.strip_suffix(".]").map(|next| next.parse().unwrap());
            }
            None => {
                seen.extend(shown.lines().map(String::from));
                break;
            }
        }
    }
    assert_eq!(seen, text.lines().map(String::from).collect::<Vec<_>>());
    assert!(calls > 2);
}

#[test]
fn shrunk_sides_are_rounded() {
    for (size, shrunk) in [
        ((4096, 1024), (2048, 512)),
        ((4096, 1), (2048, 1)),
        ((9000, 1), (2048, 1)),
        ((4096, 3), (2048, 2)),
        ((3, 5000), (1, 2048)),
        ((2049, 2049), (2048, 2048)),
        ((3000, 2999), (2048, 2047)),
    ] {
        let bytes =
            encode(image::DynamicImage::new_luma8(size.0, size.1), image::ImageFormat::Png);
        let preview = prepare_image_preview(&bytes, "image/png").unwrap();
        assert_eq!((preview.width, preview.height), shrunk);
    }
}

#[test]
fn shown_output_is_an_end_of_the_log() {
    let check = |log: String, skipped: bool| {
        let (shown, cut) = bound_output(&log, skipped, "/l");
        let body =
            if cut { shown.strip_suffix("\n\n[Output truncated. Full output: /l]").unwrap() } else { &shown };
        assert!(log.ends_with(body) || log.ends_with(&format!("{body}\n")));
    };
    let lines = |n: usize| (0..n).map(|i| format!("{i}\n")).collect::<String>();
    for skipped in [false, true] {
        check(lines(5000), skipped);
        check(lines(5000) + "end", skipped);
        check("x".repeat(60_000) + "\ny", skipped);
        check(lines(10).replace('\n', "\r\n"), skipped);
        check(String::new(), skipped);
    }
}
