use denote::config::AttachmentMode;
use denote::db::models::{BearAttachment, BearNote};
use denote::export::markdown::{
    escape_yaml, frontmatter_block, is_percent_decodable, links_decodable, percent_decode,
    render_ready, render, rewrite_attachment_paths,
    strip_attachment_markers, strip_title_heading,
};

fn sample_note() -> BearNote {
    BearNote {
        id: "ABC-123".into(),
        title: "Test Note".into(),
        text: "# Test Note\n\nSome content here.\n".into(),
        tags: vec!["work".into(), "project".into()],
        created: 0,
        modified: 0,
        is_trashed: false,
        is_archived: false,
        is_pinned: true,
        attachments: vec![],
    }
}

#[test]
fn test_render_with_frontmatter() {
    let note = sample_note();
    let result = render(&note, true, &AttachmentMode::Placeholder, None);
    assert!(result.starts_with("---\n"));
    assert!(result.contains("id: \"ABC-123\""));
    assert!(result.contains("title: \"Test Note\""));
    assert!(result.contains("tags: [\"work\", \"project\"]"));
    assert!(result.contains("pinned: true"));
    assert!(result.contains("Some content here."));
    assert!(!result.contains("# Test Note"));
}

#[test]
fn test_render_without_frontmatter() {
    let note = sample_note();
    let result = render(&note, false, &AttachmentMode::Placeholder, None);
    assert!(!result.contains("---"));
    assert!(result.contains("Some content here."));
}

#[test]
fn test_strip_attachments() {
    let note = BearNote {
        text: "Before [image:abc/img.png] middle [file:doc.pdf] after".into(),
        ..sample_note()
    };
    let result = render(&note, false, &AttachmentMode::Ignore, None);
    assert!(!result.contains("[image:"));
    assert!(!result.contains("[file:"));
    assert!(result.contains("Before  middle  after"));
}

#[test]
fn test_placeholder_keeps_attachments() {
    let note = BearNote {
        text: "Text ![](image.png) here".into(),
        ..sample_note()
    };
    let result = render(&note, false, &AttachmentMode::Placeholder, None);
    assert!(result.contains("![](image.png)"));
}

#[test]
fn test_copy_rewrites_image_paths() {
    let note = BearNote {
        text: "Before\n![](image.png)<!-- {\"width\":500} -->\nAfter".into(),
        attachments: vec![BearAttachment {
            uuid: "FB84-DEAD".into(),
            filename: "image.png".into(),
            is_image: true,
        }],
        ..sample_note()
    };
    let result = render(&note, false, &AttachmentMode::Copy, None);
    assert!(result.contains("![](_assets/ABC-123/image.png)"));
    assert!(result.contains("<!-- {\"width\":500} -->"));
}

#[test]
fn test_copy_rewrites_file_links() {
    let note = BearNote {
        text: "[Report.pdf](Report.pdf)<!-- {\"embed\":\"true\"} -->".into(),
        attachments: vec![BearAttachment {
            uuid: "DEAD-BEEF".into(),
            filename: "Report.pdf".into(),
            is_image: false,
        }],
        ..sample_note()
    };
    let result = render(&note, false, &AttachmentMode::Copy, None);
    assert!(result.contains("[Report.pdf](_assets/ABC-123/Report.pdf)"));
}

#[test]
fn test_copy_ignores_external_urls() {
    let note = BearNote {
        text: "![logo](https://example.com/logo.png)\n![](image.png)".into(),
        attachments: vec![BearAttachment {
            uuid: "SOME-UUID".into(),
            filename: "image.png".into(),
            is_image: true,
        }],
        ..sample_note()
    };
    let result = render(&note, false, &AttachmentMode::Copy, None);
    assert!(result.contains("![logo](https://example.com/logo.png)"));
    assert!(result.contains("![](_assets/ABC-123/image.png)"));
}

#[test]
fn test_copy_handles_url_encoded_filenames() {
    let note = BearNote {
        text: "![](Screenshot%202023-10-10%20at%201.20.png)".into(),
        attachments: vec![BearAttachment {
            uuid: "SOME-UUID".into(),
            filename: "Screenshot 2023-10-10 at 1.20.png".into(),
            is_image: true,
        }],
        ..sample_note()
    };
    let result = render(&note, false, &AttachmentMode::Copy, None);
    assert!(result.contains("![](_assets/ABC-123/Screenshot%202023-10-10%20at%201.20.png)"));
}

#[test]
fn render_full_file_exactly() {
    let note = sample_note();
    let result = render(&note, true, &AttachmentMode::Placeholder, None);
    assert_eq!(
        result,
        "---\nid: \"ABC-123\"\ntitle: \"Test Note\"\ntags: [\"work\", \"project\"]\n\
         created: \"1970-01-01T00:00:00Z\"\nmodified: \"1970-01-01T00:00:00Z\"\npinned: true\n---\n\n\n\
         Some content here.\n"
    );
}

#[test]
fn render_dates_in_rfc3339() {
    let note = BearNote {
        created: 1_700_000_000,
        modified: 1_700_000_061,
        is_pinned: false,
        tags: vec![],
        ..sample_note()
    };
    let result = render(&note, true, &AttachmentMode::Placeholder, None);
    assert!(result.contains("created: \"2023-11-14T22:13:20Z\"\n"));
    assert!(result.contains("modified: \"2023-11-14T22:14:21Z\"\n"));
    assert!(result.contains("tags: []\n"));
    assert!(!result.contains("pinned"));
}

#[test]
fn render_always_ends_with_newline() {
    for text in ["", "no newline", "# Test Note", "x\n"] {
        let note = BearNote { text: text.into(), ..sample_note() };
        for fm in [true, false] {
            let r = render(&note, fm, &AttachmentMode::Placeholder, None);
            assert!(!r.is_empty());
            assert!(r.ends_with('\n'));
        }
    }
    let note = BearNote { text: String::new(), ..sample_note() };
    assert_eq!(render(&note, false, &AttachmentMode::Placeholder, None), "\n");
}

#[test]
fn render_with_frontmatter_opens_with_marker() {
    let note = BearNote { text: "---\nbody".into(), ..sample_note() };
    let r = render(&note, true, &AttachmentMode::Ignore, None);
    assert!(r.starts_with("---\nid: "));
}

#[test]
fn frontmatter_block_uses_given_dates() {
    let note = BearNote { title: "Say \"hi\"".into(), tags: vec!["a\\b".into()], ..sample_note() };
    let fm = frontmatter_block(&note, "C", "M");
    assert_eq!(
        fm,
        "---\nid: \"ABC-123\"\ntitle: \"Say \\\"hi\\\"\"\ntags: [\"a\\\\b\"]\ncreated: \"C\"\nmodified: \"M\"\npinned: true\n---\n\n"
    );
}

#[test]
fn escape_yaml_escapes_backslash_then_quote() {
    assert_eq!(escape_yaml("plain"), "plain");
    assert_eq!(escape_yaml("a\"b\\c"), "a\\\"b\\\\c");
    assert_eq!(escape_yaml("\\\""), "\\\\\\\"");
}

fn read_yaml_body(t: &str) -> Option<String> {
    let cs: Vec<char> = t.chars().collect();
    let mut out = String::new();
    let mut i = 0;
    while i < cs.len() {
        if cs[i] == '\\' {
            if i + 1 < cs.len() && (cs[i + 1] == '\\' || cs[i + 1] == '"') {
                out.push(cs[i + 1]);
                i += 2;
            } else {
                return None;
            }
        } else if cs[i] == '"' {
            return None;
        } else {
            out.push(cs[i]);
            i += 1;
        }
    }
    Some(out)
}

#[test]
fn escaped_yaml_reads_back() {
    for s in ["", "Project \"X\"", "back\\slash", "\\\"\\\"", "naïve – ünïcode"] {
        assert_eq!(read_yaml_body(&escape_yaml(s)), Some(s.to_string()));
    }
}

#[test]
fn strip_title_heading_cases() {
    assert_eq!(strip_title_heading("# Title\n\nBody", "Title"), "\nBody");
    assert_eq!(strip_title_heading("  # Title  \nBody", "Title"), "Body");
    assert_eq!(strip_title_heading("# Other\nBody", "Title"), "# Other\nBody");
    assert_eq!(strip_title_heading("# Title", "Title"), "");
    assert_eq!(strip_title_heading("Body only", "Title"), "Body only");
}

#[test]
fn strip_markers_keeps_unclosed() {
    assert_eq!(strip_attachment_markers("a [image:x.png] b"), "a  b");
    assert_eq!(strip_attachment_markers("a [file:x.pdf"), "a [file:x.pdf");
    assert_eq!(strip_attachment_markers("[image:][file:y]z"), "z");
}

#[test]
fn percent_decode_cases() {
    assert_eq!(percent_decode("a%20b"), "a b");
    assert_eq!(percent_decode("100%"), "100%");
    assert_eq!(percent_decode("%2"), "%2");
    assert_eq!(percent_decode("%zz1"), "%zz1");
    assert_eq!(percent_decode("%C3%A9t%C3%A9"), "été");
    assert_eq!(percent_decode("%FFx"), "\u{FFFD}x");
    assert_eq!(percent_decode("plain"), "plain");
}

#[test]
fn rewrite_uses_given_assets_folder() {
    let note = BearNote {
        attachments: vec![BearAttachment {
            uuid: "U".into(),
            filename: "a b.png".into(),
            is_image: true,
        }],
        ..sample_note()
    };
    let r = rewrite_attachment_paths("x ![](a%20b.png) y ![](other.png)", &note, Some("_assets/XYZ"));
    assert_eq!(r, "x ![](_assets/XYZ/a%20b.png) y ![](other.png)");
}

#[test]
fn copy_mode_without_attachments_keeps_links() {
    let note = BearNote { text: "![](image.png)".into(), ..sample_note() };
    let r = render(&note, false, &AttachmentMode::Copy, None);
    assert_eq!(r, "![](image.png)\n");
}

#[test]
fn decodability_checks() {
    assert!(is_percent_decodable("a%20b"));
    assert!(is_percent_decodable("%\u{e9}x"));
    assert!(!is_percent_decodable("%a\u{e9}"));
    assert!(!is_percent_decodable("%\u{20ac}"));
    assert!(is_percent_decodable("%"));
    assert!(links_decodable("![](ok%20.png) [x](%a\u{e9}"));
    assert!(!links_decodable("![](bad%a\u{e9})"));
    let note = BearNote {
        text: "![](bad%a\u{e9})".into(),
        attachments: vec![BearAttachment { uuid: "U".into(), filename: "f".into(), is_image: true }],
        ..sample_note()
    };
    assert!(!render_ready(&note, &AttachmentMode::Copy, None));
    assert!(render_ready(&note, &AttachmentMode::Placeholder, None));
}

#[test]
fn rewrite_leaves_text_without_attachment_links() {
    let note = BearNote {
        attachments: vec![BearAttachment { uuid: "U".into(), filename: "mine.png".into(), is_image: true }],
        ..sample_note()
    };
    let text = "See [site](https://example.com) and ![](other.png)<!-- {\"w\":1} --> and [x](";
    assert_eq!(rewrite_attachment_paths(text, &note, None), text);
}

#[test]
fn plain_paths_decode_to_themselves() {
    for s in ["image.png", "a b/c.pdf", "ünïcode.png", ""] {
        assert_eq!(percent_decode(s), s);
    }
}

#[test]
fn title_heading_compares_trimmed_titles() {
    assert_eq!(strip_title_heading("# Title\nx", " Title "), "x");
    assert_eq!(strip_title_heading("\n\n# Title\r\nx", "Title"), "x");
    assert_eq!(strip_title_heading("#Title\nx", "Title"), "#Title\nx");
}

#[test]
fn link_forms_as_the_pattern_reads_them() {
    let note = BearNote {
        attachments: vec![BearAttachment { uuid: "U".into(), filename: "f.png".into(), is_image: true }],
        ..sample_note()
    };
    let rw = |t: &str| rewrite_attachment_paths(t, &note, Some("A"));
    // The display runs to the first `]`, and may hold `[`.
    assert_eq!(rw("[a [b](f.png)"), "[a [b](A/f.png)");
    // An empty path is no link.
    assert_eq!(rw("[x]()"), "[x]()");
    // A comment with spaces is kept with the link.
    assert_eq!(rw("[](f.png)<!--  {\"w\":1}  -->z"), "[](A/f.png)<!--  {\"w\":1}  -->z");
    // An unclosed comment is not part of the link.
    assert_eq!(rw("[](f.png)<!-- {a}"), "[](A/f.png)<!-- {a}");
    // Links follow one another without overlapping.
    assert_eq!(rw("[](f.png)[](f.png)"), "[](A/f.png)[](A/f.png)");
    // A `+` and one hex digit decode, as `u8::from_str_radix` reads them.
    let plus = BearNote {
        attachments: vec![BearAttachment { uuid: "U".into(), filename: "a\u{b}b".into(), is_image: false }],
        ..sample_note()
    };
    assert_eq!(rewrite_attachment_paths("[](a%+bb)", &plus, Some("A")), "[](A/a%+bb)");
    assert_eq!(percent_decode("%+4"), "\u{4}");
    assert_eq!(percent_decode("%-4"), "%-4");
}
