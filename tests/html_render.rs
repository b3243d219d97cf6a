use fromansi::{Color, Segment, Style, StyledText};

#[test]
fn test_html_plain_text() {
    let styled_text = StyledText {
        segments: vec![Segment {
            text: "Hello World".to_string(),
            style: Style::default(),
        }],
    };
    let html = styled_text.to_html();
    assert_eq!(html, "<pre><span>Hello World</span></pre>");
}

#[test]
fn test_html_indexed_fg_color() {
    let styled_text = StyledText {
        segments: vec![Segment {
            text: "Red Text".to_string(),
            style: Style {
                fg_color: Some(Color::Indexed(1)),
                ..Default::default()
            },
        }],
    };
    let html = styled_text.to_html();
    assert_eq!(html, "<pre><span class=\"fg-1\">Red Text</span></pre>");
}

#[test]
fn test_html_indexed_bg_color() {
    let styled_text = StyledText {
        segments: vec![Segment {
            text: "Blue BG".to_string(),
            style: Style {
                bg_color: Some(Color::Indexed(4)),
                ..Default::default()
            },
        }],
    };
    let html = styled_text.to_html();
    assert_eq!(html, "<pre><span class=\"bg-4\">Blue BG</span></pre>");
}

#[test]
fn test_html_rgb_fg_color() {
    let styled_text = StyledText {
        segments: vec![Segment {
            text: "Custom Color".to_string(),
            style: Style {
                fg_color: Some(Color::Rgb(255, 0, 128)),
                ..Default::default()
            },
        }],
    };
    let html = styled_text.to_html();
    assert_eq!(
        html,
        "<pre><span style=\"color: rgb(255, 0, 128)\">Custom Color</span></pre>"
    );
}

#[test]
fn test_html_rgb_bg_color() {
    let styled_text = StyledText {
        segments: vec![Segment {
            text: "Custom BG".to_string(),
            style: Style {
                bg_color: Some(Color::Rgb(128, 255, 0)),
                ..Default::default()
            },
        }],
    };
    let html = styled_text.to_html();
    assert_eq!(
        html,
        "<pre><span style=\"background-color: rgb(128, 255, 0)\">Custom BG</span></pre>"
    );
}

#[test]
fn test_html_bold_style() {
    let styled_text = StyledText {
        segments: vec![Segment {
            text: "Bold Text".to_string(),
            style: Style {
                bold: true,
                ..Default::default()
            },
        }],
    };
    let html = styled_text.to_html();
    assert_eq!(html, "<pre><span class=\"bold\">Bold Text</span></pre>");
}

#[test]
fn test_html_multiple_styles() {
    let styled_text = StyledText {
        segments: vec![Segment {
            text: "Styled Text".to_string(),
            style: Style {
                bold: true,
                italic: true,
                underline: true,
                ..Default::default()
            },
        }],
    };
    let html = styled_text.to_html();
    assert_eq!(
        html,
        "<pre><span class=\"bold italic underline\">Styled Text</span></pre>"
    );
}

#[test]
fn test_html_reverse_colors() {
    let styled_text = StyledText {
        segments: vec![Segment {
            text: "Reversed".to_string(),
            style: Style {
                fg_color: Some(Color::Indexed(1)),
                bg_color: Some(Color::Indexed(7)),
                reverse: true,
                ..Default::default()
            },
        }],
    };
    let html = styled_text.to_html();
    assert_eq!(html, "<pre><span class=\"fg-7 bg-1\">Reversed</span></pre>");
}

#[test]
fn test_html_multiple_segments() {
    let styled_text = StyledText {
        segments: vec![
            Segment {
                text: "Normal".to_string(),
                style: Style::default(),
            },
            Segment {
                text: "Bold".to_string(),
                style: Style {
                    bold: true,
                    ..Default::default()
                },
            },
        ],
    };
    let html = styled_text.to_html();
    assert_eq!(
        html,
        "<pre><span>Normal</span><span class=\"bold\">Bold</span></pre>"
    );
}

#[test]
fn test_html_empty_segments_skipped() {
    let styled_text = StyledText {
        segments: vec![
            Segment {
                text: "Text".to_string(),
                style: Style::default(),
            },
            Segment {
                text: "".to_string(),
                style: Style {
                    bold: true,
                    ..Default::default()
                },
            },
            Segment {
                text: "More".to_string(),
                style: Style::default(),
            },
        ],
    };
    let html = styled_text.to_html();
    assert_eq!(html, "<pre><span>Text</span><span>More</span></pre>");
}

#[test]
fn test_html_multiple_consecutive_spaces() {
    let styled_text = StyledText {
        segments: vec![Segment {
            text: "hello         world".to_string(),
            style: Style::default(),
        }],
    };
    let html = styled_text.to_html();
    assert_eq!(html, "<pre><span>hello         world</span></pre>");
}

#[test]
fn test_html_multiple_lines() {
    let styled_text = StyledText {
        segments: vec![Segment {
            text: "line1\nline2\nline3".to_string(),
            style: Style::default(),
        }],
    };
    let html = styled_text.to_html();
    assert_eq!(html, "<pre><span>line1\nline2\nline3</span></pre>");
}

#[test]
fn test_html_large_input_with_spaces_and_newlines() {
    let styled_text = StyledText {
        segments: vec![Segment {
            text: "This is a test\nwith    multiple   spaces\nand\nnewlines".to_string(),
            style: Style::default(),
        }],
    };
    let html = styled_text.to_html();
    assert_eq!(
        html,
        "<pre><span>This is a test\nwith    multiple   spaces\nand\nnewlines</span></pre>"
    );
}

#[test]
fn test_html_multiple_segments_with_spaces_and_styles() {
    let styled_text = StyledText {
        segments: vec![
            Segment {
                text: "Normal text   with spaces".to_string(),
                style: Style::default(),
            },
            Segment {
                text: "Bold    text".to_string(),
                style: Style {
                    bold: true,
                    ..Default::default()
                },
            },
            Segment {
                text: "\nRed     text".to_string(),
                style: Style {
                    fg_color: Some(Color::Indexed(1)),
                    ..Default::default()
                },
            },
            Segment {
                text: "   Underlined".to_string(),
                style: Style {
                    underline: true,
                    ..Default::default()
                },
            },
        ],
    };
    let html = styled_text.to_html();
    assert_eq!(
        html,
        "<pre><span>Normal text   with spaces</span><span class=\"bold\">Bold    text</span><span class=\"fg-1\">\nRed     text</span><span class=\"underline\">   Underlined</span></pre>"
    );
}

#[test]
fn test_html_filter_spaces_with_matching_fg() {
    let styled_text = StyledText {
        segments: vec![
            Segment {
                text: "Data".to_string(),
                style: Style::default(),
            },
            Segment {
                text: "   ".to_string(),
                style: Style {
                    fg_color: Some(Color::Indexed(0)), // #000000
                    ..Default::default()
                },
            },
            Segment {
                text: "More".to_string(),
                style: Style::default(),
            },
        ],
    };
    let html = styled_text.to_html_with_filter(Some("#000000"));
    assert_eq!(
        html,
        "<pre><span>Data</span><span>&nbsp;&nbsp;&nbsp;</span><span>More</span></pre>"
    );
}

#[test]
fn test_html_filter_trailing_spaces() {
    let styled_text = StyledText {
        segments: vec![
            Segment {
                text: "Data".to_string(),
                style: Style::default(),
            },
            Segment {
                text: "   ".to_string(),
                style: Style {
                    fg_color: Some(Color::Indexed(0)), // #000000
                    ..Default::default()
                },
            },
        ],
    };
    let html = styled_text.to_html_with_filter(Some("#000000"));
    assert_eq!(html, "<pre><span>Data</span></pre>");
}

#[test]
fn test_html_no_filter_non_spaces() {
    let styled_text = StyledText {
        segments: vec![
            Segment {
                text: "Data".to_string(),
                style: Style::default(),
            },
            Segment {
                text: "XXX".to_string(),
                style: Style {
                    fg_color: Some(Color::Indexed(0)), // #000000
                    ..Default::default()
                },
            },
            Segment {
                text: "More".to_string(),
                style: Style::default(),
            },
        ],
    };
    let html = styled_text.to_html_with_filter(Some("#000000"));
    assert_eq!(
        html,
        "<pre><span>Data</span><span class=\"fg-0\">XXX</span><span>More</span></pre>"
    );
}
