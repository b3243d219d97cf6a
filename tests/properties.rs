use fromansi::rexpaint::{cell_to_ansi, encode_char, glyph_from_encoding};
use fromansi::{
    generate_css, parse_ansi, rexpaint_to_ansi, Color, Segment, Style, StyledText, XpCell,
    XpColor, XpFile, XpLayer,
};

fn seg(text: &str, style: Style) -> Segment {
    Segment {
        text: text.to_string(),
        style,
    }
}

fn doc(segments: Vec<Segment>) -> StyledText {
    StyledText { segments }
}

fn rejoined(d: &StyledText) -> String {
    let lines = d.split_lines();
    let texts: Vec<String> = lines
        .iter()
        .map(|l| l.segments.iter().map(|s| s.text.as_str()).collect::<String>())
        .collect();
    texts.join("\n")
}

#[test]
fn palette_standard_entries() {
    assert_eq!(Color::Indexed(0).to_hex(), "#000000");
    assert_eq!(Color::Indexed(1).to_hex(), "#800000");
    assert_eq!(Color::Indexed(7).to_hex(), "#c0c0c0");
    assert_eq!(Color::Indexed(8).to_hex(), "#808080");
    assert_eq!(Color::Indexed(12).to_hex(), "#0000ff");
    assert_eq!(Color::Indexed(15).to_hex(), "#ffffff");
}

#[test]
fn palette_cube_entries() {
    assert_eq!(Color::Indexed(16).to_hex(), "#000000");
    assert_eq!(Color::Indexed(17).to_hex(), "#000033");
    assert_eq!(Color::Indexed(110).to_hex(), "#6699cc");
    assert_eq!(Color::Indexed(196).to_hex(), "#ff0000");
    assert_eq!(Color::Indexed(231).to_hex(), "#ffffff");
    let steps = [0u32, 51, 102, 153, 204, 255];
    for i in 16u32..232 {
        let c = i - 16;
        let want = format!(
            "#{:02x}{:02x}{:02x}",
            steps[(c / 36) as usize],
            steps[((c % 36) / 6) as usize],
            steps[(c % 6) as usize]
        );
        assert_eq!(Color::Indexed(i as u8).to_hex(), want);
    }
}

#[test]
fn palette_gray_entries() {
    assert_eq!(Color::Indexed(232).to_hex(), "#080808");
    assert_eq!(Color::Indexed(244).to_hex(), "#808080");
    assert_eq!(Color::Indexed(255).to_hex(), "#eeeeee");
    for i in 232u32..256 {
        let g = 8 + (i - 232) * 10;
        assert_eq!(Color::Indexed(i as u8).to_hex(), format!("#{:02x}{:02x}{:02x}", g, g, g));
    }
}

#[test]
fn rgb_hex_is_lower_case() {
    assert_eq!(Color::Rgb(255, 0, 128).to_hex(), "#ff0080");
    assert_eq!(Color::Rgb(10, 171, 205).to_hex(), "#0aabcd");
}

#[test]
fn indexed_round_trip_for_unique_entries() {
    let hexes: Vec<String> = (0..=255u8).map(|i| Color::Indexed(i).to_hex()).collect();
    for i in 0..=255u8 {
        let unique = hexes
            .iter()
            .enumerate()
            .all(|(j, h)| j == i as usize || *h != hexes[i as usize]);
        if unique {
            assert_eq!(Color::Indexed(i).to_indexed_if_possible(), Some(i));
        }
    }
}

#[test]
fn lookup_returns_lowest_match() {
    assert_eq!(Color::Indexed(16).to_indexed_if_possible(), Some(0));
    assert_eq!(Color::Indexed(244).to_indexed_if_possible(), Some(8));
    assert_eq!(Color::Indexed(196).to_indexed_if_possible(), Some(9));
    assert_eq!(Color::Rgb(128, 0, 0).to_indexed_if_possible(), Some(1));
    assert_eq!(Color::Rgb(1, 2, 3).to_indexed_if_possible(), None);
}

#[test]
fn parse_empty_and_plain() {
    assert_eq!(parse_ansi(""), doc(vec![]));
    assert_eq!(
        parse_ansi("plain text"),
        doc(vec![seg("plain text", Style::default())])
    );
}

#[test]
fn parse_text_around_escapes() {
    let red = Style {
        fg_color: Some(Color::Indexed(1)),
        ..Default::default()
    };
    assert_eq!(
        parse_ansi("a\x1b[31mb\x1b[0mc"),
        doc(vec![
            seg("a", Style::default()),
            seg("b", red),
            seg("c", Style::default())
        ])
    );
    assert_eq!(
        parse_ansi("\x1b[1m\x1b[31m\x1b[4mx"),
        doc(vec![seg(
            "x",
            Style {
                bold: true,
                underline: true,
                fg_color: Some(Color::Indexed(1)),
                ..Default::default()
            }
        )])
    );
}

#[test]
fn parse_empty_parameters_reset() {
    assert_eq!(
        parse_ansi("\x1b[1mA\x1b[mB"),
        doc(vec![
            seg(
                "A",
                Style {
                    bold: true,
                    ..Default::default()
                }
            ),
            seg("B", Style::default())
        ])
    );
}

#[test]
fn parse_truncated_extended_colour_keeps_earlier_effects() {
    let bold = Style {
        bold: true,
        ..Default::default()
    };
    assert_eq!(parse_ansi("\x1b[1;38;5mX"), doc(vec![seg("X", bold)]));
    assert_eq!(parse_ansi("\x1b[1;38;2;10;20mX"), doc(vec![seg("X", bold)]));
    assert_eq!(parse_ansi("\x1b[1;48mX"), doc(vec![seg("X", bold)]));
    assert_eq!(parse_ansi("\x1b[38;2;1;2;3;38;5mX"), {
        doc(vec![seg(
            "X",
            Style {
                fg_color: Some(Color::Rgb(1, 2, 3)),
                ..Default::default()
            },
        )])
    });
}

#[test]
fn parse_unknown_sub_mode_skips_one() {
    assert_eq!(
        parse_ansi("\x1b[38;9;1mX"),
        doc(vec![seg(
            "X",
            Style {
                bold: true,
                ..Default::default()
            }
        )])
    );
}

#[test]
fn parse_out_of_table_and_unreadable_parameters() {
    let bold = Style {
        bold: true,
        ..Default::default()
    };
    assert_eq!(parse_ansi("\x1b[;1mX"), doc(vec![seg("X", bold)]));
    assert_eq!(parse_ansi("\x1b[4294967296;1mX"), doc(vec![seg("X", bold)]));
    assert_eq!(parse_ansi("\x1b[6;1;99mX"), doc(vec![seg("X", bold)]));
    assert_eq!(
        parse_ansi("\x1b[38;5;300mX"),
        doc(vec![seg(
            "X",
            Style {
                fg_color: Some(Color::Indexed(44)),
                ..Default::default()
            }
        )])
    );
}

#[test]
fn parse_bright_colours_and_clearing() {
    assert_eq!(
        parse_ansi("\x1b[91;101mX"),
        doc(vec![seg(
            "X",
            Style {
                fg_color: Some(Color::Indexed(9)),
                bg_color: Some(Color::Indexed(9)),
                ..Default::default()
            }
        )])
    );
    assert_eq!(
        parse_ansi("\x1b[1;2;3;4;5;7;8;9;22;23;24;25;27;28;29mX"),
        doc(vec![seg(
            "X",
            Style {
                dim: true,
                ..Default::default()
            }
        )])
    );
}

#[test]
fn parse_other_escapes_stay_text() {
    assert_eq!(
        parse_ansi("\x1b[2J\x1b[1;2Hok\x1b]0;t\x07"),
        doc(vec![seg("\x1b[2J\x1b[1;2Hok\x1b]0;t\x07", Style::default())])
    );
    assert_eq!(
        parse_ansi("\x1b[\x1b[32mg"),
        doc(vec![
            seg("\x1b[", Style::default()),
            seg(
                "g",
                Style {
                    fg_color: Some(Color::Indexed(2)),
                    ..Default::default()
                }
            )
        ])
    );
}

#[test]
fn split_lines_cases() {
    let d = doc(vec![seg("a\nb", Style::default())]);
    let lines = d.split_lines();
    assert_eq!(lines.len(), 2);
    assert_eq!(lines[0], doc(vec![seg("a", Style::default())]));
    assert_eq!(lines[1], doc(vec![seg("b", Style::default())]));

    let d = doc(vec![seg("a\n", Style::default())]);
    assert_eq!(d.split_lines(), vec![doc(vec![seg("a", Style::default())])]);

    let d = doc(vec![seg("\n\n", Style::default())]);
    assert_eq!(d.split_lines(), vec![doc(vec![]), doc(vec![])]);

    assert_eq!(doc(vec![]).split_lines(), vec![]);
    assert_eq!(doc(vec![seg("", Style::default())]).split_lines(), vec![]);

    let bold = Style {
        bold: true,
        ..Default::default()
    };
    let d = doc(vec![seg("x", Style::default()), seg("y\nz", bold)]);
    assert_eq!(
        d.split_lines(),
        vec![
            doc(vec![seg("x", Style::default()), seg("y", bold)]),
            doc(vec![seg("z", bold)])
        ]
    );
}

#[test]
fn split_lines_rejoin_gives_text_back() {
    let bold = Style {
        bold: true,
        ..Default::default()
    };
    let d = doc(vec![seg("ab\nc", Style::default()), seg("d\n\ne", bold)]);
    assert_eq!(rejoined(&d), "ab\ncd\n\ne");
    let d = doc(vec![seg("ab\n", Style::default()), seg("", bold)]);
    assert_eq!(rejoined(&d), "ab");
    let d = doc(vec![seg("\n\nx", Style::default())]);
    assert_eq!(rejoined(&d), "\n\nx");
    assert_eq!(d.segments().len(), 1);
}

#[test]
fn html_reverse_swaps_direct_colours() {
    let d = doc(vec![seg(
        "r",
        Style {
            fg_color: Some(Color::Rgb(1, 2, 3)),
            bg_color: Some(Color::Indexed(4)),
            reverse: true,
            ..Default::default()
        },
    )]);
    assert_eq!(
        d.to_html(),
        "<pre><span class=\"fg-4\" style=\"background-color: rgb(1, 2, 3)\">r</span></pre>"
    );
}

#[test]
fn html_all_classes_and_styles_in_order() {
    let d = doc(vec![seg(
        "x",
        Style {
            fg_color: Some(Color::Rgb(1, 2, 3)),
            bg_color: Some(Color::Rgb(4, 5, 6)),
            bold: true,
            dim: true,
            italic: true,
            underline: true,
            blink: true,
            reverse: false,
            hidden: true,
            strikethrough: true,
        },
    )]);
    assert_eq!(
        d.to_html(),
        "<pre><span class=\"bold dim italic underline blink strikethrough hidden\" style=\"color: rgb(1, 2, 3); background-color: rgb(4, 5, 6)\">x</span></pre>"
    );
}

#[test]
fn html_filter_by_lines() {
    let black = Style {
        fg_color: Some(Color::Indexed(0)),
        ..Default::default()
    };
    let d = doc(vec![
        seg("A", Style::default()),
        seg("  ", black),
        seg("\n", Style::default()),
        seg("  ", black),
        seg("\nB", Style::default()),
    ]);
    assert_eq!(
        d.to_html_with_filter(Some("#000000")),
        "<pre><span>A</span>\n\n<span>B</span></pre>"
    );
    let leading_blank = doc(vec![seg("\nB", Style::default())]);
    assert_eq!(
        leading_blank.to_html_with_filter(Some("#000000")),
        "<pre>\n<span>B</span></pre>"
    );
    assert_eq!(d.to_html_with_filter(None), d.to_html());
    let reversed = doc(vec![
        seg(
            "  ",
            Style {
                bg_color: Some(Color::Rgb(0, 0, 0)),
                reverse: true,
                ..Default::default()
            },
        ),
        seg("X", Style::default()),
    ]);
    assert_eq!(
        reversed.to_html_with_filter(Some("#000000")),
        "<pre><span>&nbsp;&nbsp;</span><span>X</span></pre>"
    );
    assert_eq!(
        reversed.to_html_with_filter(Some("#000001")),
        "<pre><span style=\"color: rgb(0, 0, 0)\">  </span><span>X</span></pre>"
    );
    assert_eq!(doc(vec![]).to_html_with_filter(Some("#000000")), "<pre></pre>");
}

#[test]
fn grid_of_empty_document() {
    let xp = doc(vec![]).to_rexpaint();
    assert_eq!(xp.layers.len(), 1);
    assert_eq!(xp.layers[0].width, 1);
    assert_eq!(xp.layers[0].height, 1);
    assert_eq!(xp.layers[0].get(0, 0).unwrap().ch, 0);
    assert!(xp.layers[0].get(1, 0).is_none());
}

#[test]
fn grid_cells_and_glyphs() {
    let d = doc(vec![
        seg("a\u{263A}", Style::default()),
        seg(
            "hi",
            Style {
                hidden: true,
                ..Default::default()
            },
        ),
        seg("\u{17A}\r", Style::default()),
        seg("\nxy", Style::default()),
    ]);
    let xp = d.to_rexpaint();
    let layer = &xp.layers[0];
    assert_eq!(layer.width, 6);
    assert_eq!(layer.height, 2);
    assert_eq!(layer.get(0, 0).unwrap().ch, 97);
    assert_eq!(layer.get(1, 0).unwrap().ch, 1);
    assert_eq!(layer.get(2, 0).unwrap().ch, 0);
    assert_eq!(layer.get(3, 0).unwrap().ch, 0);
    assert_eq!(layer.get(4, 0).unwrap().ch, 63);
    assert_eq!(layer.get(5, 0).unwrap().ch, 32);
    assert_eq!(layer.get(1, 1).unwrap().ch, 121);
    assert_eq!(*layer.get(2, 1).unwrap(), XpCell {
        ch: 0,
        fg: XpColor::new(0, 0, 0),
        bg: XpColor::new(0, 0, 0)
    });
    assert_eq!(encode_char('\u{263A}'), 1);
    assert_eq!(encode_char('\r'), 32);
    assert_eq!(encode_char('\u{17A}'), 63);
}

#[test]
fn glyph_from_encoding_fallbacks() {
    assert_eq!(glyph_from_encoding('A', Some(65)), 65);
    assert_eq!(glyph_from_encoding('\u{17A}', None), 63);
    assert_eq!(glyph_from_encoding('\n', None), 32);
}

#[test]
fn grid_to_ansi_cells() {
    let opaque = XpCell {
        ch: 0x41,
        fg: XpColor::new(1, 2, 3),
        bg: XpColor::new(4, 5, 6),
    };
    let clear = XpCell {
        ch: 0,
        fg: XpColor::new(255, 255, 255),
        bg: XpColor::new(255, 0, 255),
    };
    let face = XpCell {
        ch: 0x101,
        fg: XpColor::new(0, 0, 0),
        bg: XpColor::new(255, 0, 255),
    };
    assert_eq!(
        cell_to_ansi(&opaque, 'A'),
        "\x1b[38;2;1;2;3;48;2;4;5;6mA\x1b[0m"
    );
    assert!(clear.bg.is_transparent());
    let xp = XpFile {
        layers: vec![XpLayer {
            width: 2,
            height: 2,
            cells: vec![vec![opaque, clear], vec![face, opaque]],
        }],
    };
    assert_eq!(
        rexpaint_to_ansi(&xp),
        "\x1b[38;2;1;2;3;48;2;4;5;6mA\x1b[0m\x1b[38;2;255;255;255m \x1b[0m\n\
         \x1b[38;2;0;0;0m\u{263A}\x1b[0m\x1b[38;2;1;2;3;48;2;4;5;6mA\x1b[0m\n"
    );
}

#[test]
fn grid_round_trip_to_ansi() {
    let d = parse_ansi("\x1b[31mab\x1b[0m\nc");
    let ansi = rexpaint_to_ansi(&d.to_rexpaint());
    assert_eq!(
        ansi,
        "\x1b[38;2;128;0;0;48;2;0;0;0ma\x1b[0m\x1b[38;2;128;0;0;48;2;0;0;0mb\x1b[0m\n\
         \x1b[38;2;255;255;255;48;2;0;0;0mc\x1b[0m\x1b[38;2;0;0;0;48;2;0;0;0m \x1b[0m\n"
    );
    let blank = XpFile::new(1, 1);
    assert_eq!(blank.layers[0].get(0, 0).unwrap().ch, 0);
}

#[test]
fn css_holds_every_palette_entry() {
    let css = generate_css();
    assert!(css.starts_with("/* ANSI Color Styles for fromansi HTML output */\n\n.bold { font-weight: bold; }\n"));
    assert!(css.contains(".hidden { visibility: hidden; }\n\n.fg0 { color: #000000; }\n.bg0 { background-color: #000000; }\n"));
    assert!(css.contains(".fg1 { color: #800000; }\n"));
    assert!(css.contains(".bg15 { background-color: #ffffff; }\n\n.fg16 { color: #000000; }\n"));
    assert!(css.contains(".fg110 { color: #6699cc; }\n"));
    assert!(css.contains(".bg231 { background-color: #ffffff; }\n\n.fg232 { color: #080808; }\n"));
    assert!(css.ends_with(".fg255 { color: #eeeeee; }\n.bg255 { background-color: #eeeeee; }\n"));
    assert_eq!(css.lines().filter(|l| l.starts_with(".fg")).count(), 256);
}

#[test]
fn grid_conventions_match_the_xp_format() {
    let theirs = rexpaint::XpLayer::new(2, 1);
    let ours = XpLayer::new(2, 1);
    let (a, b) = (theirs.get(1, 0).unwrap(), ours.get(1, 0).unwrap());
    assert_eq!((a.ch, a.fg.r, a.fg.g, a.fg.b), (b.ch, b.fg.r, b.fg.g, b.fg.b));
    assert_eq!((a.bg.r, a.bg.g, a.bg.b), (b.bg.r, b.bg.g, b.bg.b));
    let t = rexpaint::XpColor::TRANSPARENT;
    assert!(XpColor::new(t.r, t.g, t.b).is_transparent());
    assert!(!XpColor::new(255, 0, 254).is_transparent());
}
