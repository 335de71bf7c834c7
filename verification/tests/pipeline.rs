use puml::{diagnostic_for, finish_chapter, prepare_chapter, version_warning, Puml, RenderOutcome};

#[test]
fn capability_query() {
    let p = Puml::new();
    assert!(p.supports_renderer("html"));
    assert!(!p.supports_renderer("epub"));
    assert!(!p.supports_renderer("HTML"));
    assert!(!p.supports_renderer(""));
    assert_eq!(p.name(), "puml");
}

#[test]
fn passthrough_roundtrip() {
    let content = "# Title\n\nhello *world*";
    let prepared = prepare_chapter(content);
    assert_eq!(prepared.blocks().len(), 0);
    let out = finish_chapter(prepared, &Vec::new()).unwrap();
    assert!(out.contains("hello *world*"));
    assert!(out.contains("# Title"));
    let again = prepare_chapter(&out);
    assert_eq!(again.blocks().len(), 0);
    let out2 = finish_chapter(again, &Vec::new()).unwrap();
    assert_eq!(out, out2);
}

#[test]
fn passthrough_keeps_other_constructs() {
    let content = "# Head\n\n<div>raw</div>\n\n- item one\n- item two\n\n```rust\nlet x = 1;\n```\n\n`code span`";
    let prepared = prepare_chapter(content);
    assert_eq!(prepared.blocks().len(), 0);
    let out = finish_chapter(prepared, &Vec::new()).unwrap();
    assert!(out.contains("<div>raw</div>"));
    assert!(out.contains("item one"));
    assert!(out.contains("item two"));
    assert!(out.contains("let x = 1;"));
    assert!(out.contains("rust"));
    assert!(out.contains("`code span`"));
}

#[test]
fn single_block_substitution() {
    let content = "before\n\n```plantuml\nSRC\n```\n\nafter";
    let prepared = prepare_chapter(content);
    assert_eq!(prepared.blocks().clone(), vec!["SRC\n".to_string()]);
    let outcomes = vec![RenderOutcome::Success(b"<svg>one</svg>".to_vec())];
    let out = finish_chapter(prepared, &outcomes).unwrap();
    let i_before = out.find("before").unwrap();
    let i_fig = out.find("<figure><svg>one</svg></figure>").unwrap();
    let i_after = out.find("after").unwrap();
    assert!(i_before < i_fig);
    assert!(i_fig < i_after);
    assert!(!out.contains("SRC"));
    assert!(!out.contains("```"));
}

#[test]
fn preamble_stripping() {
    let content = "```plantuml\nA -> B\n```";
    let prepared = prepare_chapter(content);
    let preamble = "<?xml version=\"1.0\" encoding=\"UTF-8\" standalone=\"no\"?>";
    let svg = format!("{}<svg>diagram</svg>", preamble);
    let outcomes = vec![RenderOutcome::Success(svg.into_bytes())];
    let out = finish_chapter(prepared, &outcomes).unwrap();
    assert!(!out.contains(preamble));
    assert!(out.contains("<figure><svg>diagram</svg></figure>"));
}

#[test]
fn spawn_failure_drops_block() {
    let content = "before\n\n```plantuml\nX\n```\n\nafter";
    let prepared = prepare_chapter(content);
    let outcomes = vec![RenderOutcome::SpawnFailed("No such file or directory".to_string())];
    let msg = diagnostic_for(&outcomes[0]).unwrap();
    assert!(msg.contains("failed to launch plantuml"));
    assert!(msg.contains("No such file or directory"));
    let out = finish_chapter(prepared, &outcomes).unwrap();
    assert!(out.contains("before"));
    assert!(out.contains("after"));
    assert!(!out.contains('X'));
    assert!(!out.contains("figure"));
}

#[test]
fn exit_failure_diagnostic() {
    let o = RenderOutcome::ExitFailed {
        code: Some(1),
        stdout: "out text".to_string(),
        stderr: "boom".to_string(),
    };
    let msg = diagnostic_for(&o).unwrap();
    assert!(msg.contains("plantuml failed, exit code: 1"));
    assert!(msg.contains("plantuml STDOUT:\nout text"));
    assert!(msg.contains("plantuml STDERR:\nboom"));
    let prepared = prepare_chapter("```plantuml\nY\n```");
    let out = finish_chapter(prepared, &vec![o]).unwrap();
    assert!(!out.contains('Y'));
    assert!(!out.contains("figure"));
}

#[test]
fn exit_code_spellings() {
    let cases = [
        (Some(0), "exit code: 0\n"),
        (Some(250), "exit code: 250\n"),
        (Some(-42), "exit code: -42\n"),
        (None, "exit code: unknown\n"),
    ];
    for (code, expect) in cases {
        let o = RenderOutcome::ExitFailed {
            code,
            stdout: String::new(),
            stderr: String::new(),
        };
        let msg = diagnostic_for(&o).unwrap();
        assert!(msg.contains(expect), "{}", msg);
    }
}

#[test]
fn invalid_utf8_output_drops_block() {
    let content = "keep\n\n```plantuml\nZ\n```";
    let prepared = prepare_chapter(content);
    let outcomes = vec![RenderOutcome::Success(vec![0xff, 0xfe, 0xfd])];
    let msg = diagnostic_for(&outcomes[0]).unwrap();
    assert!(msg.contains("invalid UTF-8"));
    let out = finish_chapter(prepared, &outcomes).unwrap();
    assert!(out.contains("keep"));
    assert!(!out.contains("figure"));
}

#[test]
fn success_yields_no_diagnostic() {
    assert!(diagnostic_for(&RenderOutcome::Success(b"<svg/>".to_vec())).is_none());
}

#[test]
fn ordering_two_blocks() {
    let content = "```plantuml\nfirst\n```\n\nmiddle\n\n```plantuml\nsecond\n```";
    let prepared = prepare_chapter(content);
    assert_eq!(
        prepared.blocks().clone(),
        vec!["first\n".to_string(), "second\n".to_string()]
    );
    let outcomes = vec![
        RenderOutcome::Success(b"<svg>ONE</svg>".to_vec()),
        RenderOutcome::Success(b"<svg>TWO</svg>".to_vec()),
    ];
    let out = finish_chapter(prepared, &outcomes).unwrap();
    let i1 = out.find("<svg>ONE</svg>").unwrap();
    let im = out.find("middle").unwrap();
    let i2 = out.find("<svg>TWO</svg>").unwrap();
    assert!(i1 < im);
    assert!(im < i2);
    assert!(!out.contains("first"));
    assert!(!out.contains("second"));
}

#[test]
fn only_exact_tag_is_recognised() {
    let content = "```plantuml x\nQ\n```\n\n```Plantuml\nR\n```";
    let prepared = prepare_chapter(content);
    assert_eq!(prepared.blocks().len(), 0);
    let out = finish_chapter(prepared, &Vec::new()).unwrap();
    assert!(out.contains('Q'));
    assert!(out.contains('R'));
}

#[test]
fn indented_code_passes_through() {
    let content = "para\n\n    indented code\n\nend";
    let prepared = prepare_chapter(content);
    assert_eq!(prepared.blocks().len(), 0);
    let out = finish_chapter(prepared, &Vec::new()).unwrap();
    assert!(out.contains("indented code"));
    assert!(out.contains("para"));
    assert!(out.contains("end"));
}

#[test]
fn version_warning_cases() {
    assert!(version_warning("puml", "0.4.52", "0.4.52").is_none());
    let w = version_warning("puml", "0.4.52", "0.5.0").unwrap();
    assert_eq!(
        w,
        "Warning: The puml plugin was built against version 0.4.52 of mdbook, \
         but we're being called from version 0.5.0"
    );
}
