use fromansi::{parse_ansi, Color, Segment, Style, StyledText};

#[test]
fn test_basic_fg_color() {
    let input = "\x1b[31mRed\x1b[0m";
    let result = parse_ansi(input);
    let expected = StyledText {
        segments: vec![Segment {
            text: "Red".to_string(),
            style: Style {
                fg_color: Some(Color::Indexed(1)),
                ..Default::default()
            },
        }],
    };
    assert_eq!(result, expected);
}

#[test]
fn test_basic_bg_color() {
    let input = "\x1b[41mRed BG\x1b[0m";
    let result = parse_ansi(input);
    let expected = StyledText {
        segments: vec![Segment {
            text: "Red BG".to_string(),
            style: Style {
                bg_color: Some(Color::Indexed(1)),
                ..Default::default()
            },
        }],
    };
    assert_eq!(result, expected);
}

#[test]
fn test_basic_fg_bg_color() {
    let input = "\x1b[32;44mGreen on Blue\x1b[0m";
    let result = parse_ansi(input);
    let expected = StyledText {
        segments: vec![Segment {
            text: "Green on Blue".to_string(),
            style: Style {
                fg_color: Some(Color::Indexed(2)),
                bg_color: Some(Color::Indexed(4)),
                ..Default::default()
            },
        }],
    };
    assert_eq!(result, expected);
}

#[test]
fn test_terminal_styles() {
    let input = "\x1b[1;3;4mBold Italic Underline\x1b[0m";
    let result = parse_ansi(input);
    let expected = StyledText {
        segments: vec![Segment {
            text: "Bold Italic Underline".to_string(),
            style: Style {
                bold: true,
                italic: true,
                underline: true,
                ..Default::default()
            },
        }],
    };
    assert_eq!(result, expected);
}

#[test]
fn test_indexed_fg_color() {
    let input = "\x1b[38;5;196mBright Red\x1b[0m";
    let result = parse_ansi(input);
    let expected = StyledText {
        segments: vec![Segment {
            text: "Bright Red".to_string(),
            style: Style {
                fg_color: Some(Color::Indexed(196)),
                ..Default::default()
            },
        }],
    };
    assert_eq!(result, expected);
}

#[test]
fn test_indexed_bg_color() {
    let input = "\x1b[48;5;200mMagenta BG\x1b[0m";
    let result = parse_ansi(input);
    let expected = StyledText {
        segments: vec![Segment {
            text: "Magenta BG".to_string(),
            style: Style {
                bg_color: Some(Color::Indexed(200)),
                ..Default::default()
            },
        }],
    };
    assert_eq!(result, expected);
}

#[test]
fn test_true_color_fg() {
    let input = "\x1b[38;2;255;0;0mTrue Red\x1b[0m";
    let result = parse_ansi(input);
    let expected = StyledText {
        segments: vec![Segment {
            text: "True Red".to_string(),
            style: Style {
                fg_color: Some(Color::Rgb(255, 0, 0)),
                ..Default::default()
            },
        }],
    };
    assert_eq!(result, expected);
}

#[test]
fn test_true_color_bg() {
    let input = "\x1b[48;2;0;255;128mCyan BG\x1b[0m";
    let result = parse_ansi(input);
    let expected = StyledText {
        segments: vec![Segment {
            text: "Cyan BG".to_string(),
            style: Style {
                bg_color: Some(Color::Rgb(0, 255, 128)),
                ..Default::default()
            },
        }],
    };
    assert_eq!(result, expected);
}

#[test]
fn test_mixed_styles_and_colors() {
    let input = "\x1b[1;38;2;255;165;0;48;5;0mOrange on Black\x1b[0m";
    let result = parse_ansi(input);
    let expected = StyledText {
        segments: vec![Segment {
            text: "Orange on Black".to_string(),
            style: Style {
                bold: true,
                fg_color: Some(Color::Rgb(255, 165, 0)),
                bg_color: Some(Color::Indexed(0)),
                ..Default::default()
            },
        }],
    };
    assert_eq!(result, expected);
}
