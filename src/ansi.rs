//! The scanner that reads SGR escape sequences (`ESC [ params m`) out of text
//! and builds a styled document.
use vstd::prelude::*;

use crate::color::Color;
use crate::document::{plain_style, runs_view, Segment, Style, StyledText};
use crate::text::{chars_of, split_char, string_from_range};

verus! {

/// What scanning text gives: a styled document.
pub type ParsedData = StyledText;

/// A character allowed between `ESC [` and `m`: a digit or `;`.
pub open spec fn is_param_char(c: char) -> bool {
    ('0' <= c && c <= '9') || c == ';'
}

/// The first index at or after `j` that holds no parameter character.
pub open spec fn param_end(s: Seq<char>, j: nat) -> nat
    decreases s.len() - j,
{
    if j < s.len() && is_param_char(s[j as int]) {
        param_end(s, j + 1)
    } else {
        j
    }
}

/// Where the escape sequence that begins at `i` ends (just past its `m`), if
/// one begins there.
pub open spec fn escape_at(s: Seq<char>, i: nat) -> Option<nat> {
    if i + 1 < s.len() && s[i as int] == '\x1b' && s[i as int + 1] == '[' {
        let e = param_end(s, i + 2);
        if e < s.len() && s[e as int] == 'm' {
            Some(e + 1)
        } else {
            None
        }
    } else {
        None
    }
}

/// The decimal value of a string of digits.
pub open spec fn digits_value(t: Seq<char>) -> nat
    decreases t.len(),
{
    if t.len() == 0 {
        0
    } else {
        digits_value(t.drop_last()) * 10 + ((t.last() as int - '0' as int) as nat)
    }
}

/// The numbers of the fields that read as a `u32`; the others are dropped.
pub open spec fn field_values(fields: Seq<Seq<char>>) -> Seq<u32>
    decreases fields.len(),
{
    if fields.len() == 0 {
        Seq::empty()
    } else {
        let f = fields.last();
        let rest = field_values(fields.drop_last());
        if f.len() > 0 && digits_value(f) <= u32::MAX {
            rest.push(digits_value(f) as u32)
        } else {
            rest
        }
    }
}

/// The parameters written between `ESC [` and `m`: no text at all means a
/// single 0.
pub open spec fn sgr_params(t: Seq<char>) -> Seq<u32> {
    if t.len() == 0 {
        seq![0u32]
    } else {
        field_values(split_char(t, ';'))
    }
}

/// The effect of one plain parameter (not 38 or 48).
pub open spec fn apply_code(p: u32, st: Style) -> Style {
    if p == 0 {
        plain_style()
    } else if p == 1 {
        Style { bold: true, ..st }
    } else if p == 2 {
        Style { dim: true, ..st }
    } else if p == 3 {
        Style { italic: true, ..st }
    } else if p == 4 {
        Style { underline: true, ..st }
    } else if p == 5 {
        Style { blink: true, ..st }
    } else if p == 7 {
        Style { reverse: true, ..st }
    } else if p == 8 {
        Style { hidden: true, ..st }
    } else if p == 9 {
        Style { strikethrough: true, ..st }
    } else if p == 22 {
        Style { bold: false, ..st }
    } else if p == 23 {
        Style { italic: false, ..st }
    } else if p == 24 {
        Style { underline: false, ..st }
    } else if p == 25 {
        Style { blink: false, ..st }
    } else if p == 27 {
        Style { reverse: false, ..st }
    } else if p == 28 {
        Style { hidden: false, ..st }
    } else if p == 29 {
        Style { strikethrough: false, ..st }
    } else if 30 <= p <= 37 {
        Style { fg_color: Some(Color::Indexed((p - 30) as u8)), ..st }
    } else if 40 <= p <= 47 {
        Style { bg_color: Some(Color::Indexed((p - 40) as u8)), ..st }
    } else if 90 <= p <= 97 {
        Style { fg_color: Some(Color::Indexed((p - 82) as u8)), ..st }
    } else if 100 <= p <= 107 {
        Style { bg_color: Some(Color::Indexed((p - 92) as u8)), ..st }
    } else {
        st
    }
}

/// The style with the foreground (`fg`) or the background set to `c`.
pub open spec fn with_extended(st: Style, fg: bool, c: Color) -> Style {
    if fg {
        Style { fg_color: Some(c), ..st }
    } else {
        Style { bg_color: Some(c), ..st }
    }
}

/// The low byte of a parameter.
pub open spec fn low_byte(p: u32) -> u8 {
    (p % 256) as u8
}

/// The style after applying the parameters from index `i` on. A 38 or 48
/// whose operands run short ends the sequence with the style reached so far.
pub open spec fn apply_params_from(ps: Seq<u32>, i: nat, st: Style) -> Style
    decreases ps.len() - i,
{
    if i >= ps.len() {
        st
    } else if ps[i as int] == 38 || ps[i as int] == 48 {
        let fg = ps[i as int] == 38;
        if i + 1 >= ps.len() {
            st
        } else if ps[i as int + 1] == 5 {
            if i + 2 >= ps.len() {
                st
            } else {
                apply_params_from(
                    ps,
                    i + 3,
                    with_extended(st, fg, Color::Indexed(low_byte(ps[i as int + 2]))),
                )
            }
        } else if ps[i as int + 1] == 2 {
            if i + 4 >= ps.len() {
                st
            } else {
                apply_params_from(
                    ps,
                    i + 5,
                    with_extended(
                        st,
                        fg,
                        Color::Rgb(
                            low_byte(ps[i as int + 2]),
                            low_byte(ps[i as int + 3]),
                            low_byte(ps[i as int + 4]),
                        ),
                    ),
                )
            }
        } else {
            apply_params_from(ps, i + 2, st)
        }
    } else {
        apply_params_from(ps, i + 1, apply_code(ps[i as int], st))
    }
}

/// A run for `t` in style `st`, or nothing when `t` is empty.
pub open spec fn emit(t: Seq<char>, st: Style) -> Seq<(Seq<char>, Style)> {
    if t.len() == 0 {
        Seq::empty()
    } else {
        seq![(t, st)]
    }
}

/// The runs of `s` from `pos` on, where the text not yet emitted begins at
/// `start` and `st` is the style in effect.
pub open spec fn scan_from(s: Seq<char>, pos: nat, start: nat, st: Style) -> Seq<
    (Seq<char>, Style),
>
    decreases s.len() - pos,
    via scan_from_decreases
{
    if pos >= s.len() {
        emit(s.subrange(start as int, s.len() as int), st)
    } else {
        match escape_at(s, pos) {
            Some(end) => emit(s.subrange(start as int, pos as int), st) + scan_from(
                s,
                end,
                end,
                apply_params_from(sgr_params(s.subrange(pos as int + 2, end as int - 1)), 0, st),
            ),
            None => scan_from(s, pos + 1, start, st),
        }
    }
}

#[via_fn]
proof fn scan_from_decreases(s: Seq<char>, pos: nat, start: nat, st: Style) {
    if pos < s.len() {
        if escape_at(s, pos) is Some {
            lemma_param_end(s, pos + 2);
        }
    }
}

/// The document that scanning `s` from its start in the plain style gives.
pub open spec fn parse_ansi_spec(s: Seq<char>) -> Seq<(Seq<char>, Style)> {
    scan_from(s, 0, 0, plain_style())
}

proof fn lemma_param_end(s: Seq<char>, j: nat)
    ensures
        j <= param_end(s, j),
        j <= s.len() ==> param_end(s, j) <= s.len(),
        forall|k: int| j <= k < param_end(s, j) ==> is_param_char(#[trigger] s[k]),
    decreases s.len() - j,
{
    if j < s.len() && is_param_char(s[j as int]) {
        lemma_param_end(s, j + 1);
    }
}

fn is_param_char_exec(c: char) -> (r: bool)
    ensures
        r == is_param_char(c),
{
    ('0' <= c && c <= '9') || c == ';'
}

/// Exec form of `escape_at`.
fn escape_end(s: &Vec<char>, i: usize) -> (r: Option<usize>)
    requires
        i < s.len(),
    ensures
        r is Some <==> escape_at(s@, i as nat) is Some,
        r is Some ==> escape_at(s@, i as nat) == Some(r->0 as nat),
{
    if i + 1 < s.len() && s[i] == '\x1b' && s[i + 1] == '[' {
        let mut e: usize = i + 2;
        proof {
            lemma_param_end(s@, e as nat);
        }
        while e < s.len() && is_param_char_exec(s[e])
            invariant
                i + 2 <= e <= s.len(),
                param_end(s@, (i + 2) as nat) == param_end(s@, e as nat),
            decreases s.len() - e,
        {
            e = e + 1;
        }
        if e < s.len() && s[e] == 'm' {
            Some(e + 1)
        } else {
            None
        }
    } else {
        None
    }
}

/// The parameters written in `s[from..to]`.
fn read_params(s: &Vec<char>, from: usize, to: usize) -> (r: Vec<u32>)
    requires
        from <= to <= s.len(),
        forall|k: int| from <= k < to ==> is_param_char(#[trigger] s@[k]),
    ensures
        r@ == sgr_params(s@.subrange(from as int, to as int)),
{
    if from == to {
        let r = vec![0u32];
        assert(r@ =~= seq![0u32]);
        return r;
    }
    let mut out: Vec<u32> = Vec::new();
    let mut val: u64 = 0;
    let mut len: usize = 0;
    let mut over = false;
    let mut k: usize = from;
    while k < to
        invariant
            from <= k <= to <= s.len(),
            len <= k - from,
            forall|q: int| from <= q < to ==> is_param_char(#[trigger] s@[q]),
            ({
                let parts = split_char(s@.subrange(from as int, k as int), ';');
                &&& out@ == field_values(parts.drop_last())
                &&& len == parts.last().len()
                &&& !over ==> val == digits_value(parts.last()) && val <= u32::MAX
                &&& over ==> digits_value(parts.last()) > u32::MAX
            }),
        decreases to - k,
    {
        let ghost t = s@.subrange(from as int, k as int);
        let ghost t2 = s@.subrange(from as int, k + 1);
        let ghost parts = split_char(t, ';');
        proof {
            assert(t2.drop_last() =~= t);
            assert(t2.last() == s@[k as int]);
            assert(split_char(t, ';').len() >= 1) by {
                crate::text::lemma_split_char(t, ';');
            }
        }
        let c = s[k];
        if c == ';' {
            proof {
                let next_parts = split_char(t2, ';');
                assert(next_parts == parts.push(Seq::<char>::empty()));
                assert(next_parts.drop_last().drop_last() =~= parts.drop_last());
                assert(next_parts.drop_last().last() == parts.last());
            }
            if len > 0 && !over {
                out.push(val as u32);
            }
            val = 0;
            len = 0;
            over = false;
        } else {
            let ghost f = parts.last();
            proof {
                let next_parts = split_char(t2, ';');
                assert(next_parts == parts.update(parts.len() - 1, f.push(c)));
                assert(next_parts.drop_last() =~= parts.drop_last());
                assert(f.push(c).drop_last() =~= f);
                assert(digits_value(f.push(c)) == digits_value(f) * 10 + ((c as int - '0' as int) as nat));
            }
            let d: u64 = ((c as u32) - 48) as u64;
            if !over {
                let next = val * 10 + d;
                if next > u32::MAX as u64 {
                    over = true;
                } else {
                    val = next;
                }
            } else {
                proof {
                    assert(digits_value(f) * 10 >= digits_value(f)) by (nonlinear_arith);
                }
            }
            len = len + 1;
        }
        k = k + 1;
    }
    let ghost parts = split_char(s@.subrange(from as int, to as int), ';');
    proof {
        assert(parts.len() >= 1) by {
            crate::text::lemma_split_char(s@.subrange(from as int, to as int), ';');
        }
        assert(parts.drop_last() =~= parts.subrange(0, parts.len() - 1));
    }
    if len > 0 && !over {
        out.push(val as u32);
    }
    out
}

/// The effect of one plain parameter.
fn apply_code_exec(p: u32, st: Style) -> (r: Style)
    ensures
        r == apply_code(p, st),
{
    let mut r = st;
    if p == 0 {
        r = Style::default();
    } else if p == 1 {
        r.bold = true;
    } else if p == 2 {
        r.dim = true;
    } else if p == 3 {
        r.italic = true;
    } else if p == 4 {
        r.underline = true;
    } else if p == 5 {
        r.blink = true;
    } else if p == 7 {
        r.reverse = true;
    } else if p == 8 {
        r.hidden = true;
    } else if p == 9 {
        r.strikethrough = true;
    } else if p == 22 {
        r.bold = false;
    } else if p == 23 {
        r.italic = false;
    } else if p == 24 {
        r.underline = false;
    } else if p == 25 {
        r.blink = false;
    } else if p == 27 {
        r.reverse = false;
    } else if p == 28 {
        r.hidden = false;
    } else if p == 29 {
        r.strikethrough = false;
    } else if 30 <= p && p <= 37 {
        r.fg_color = Some(Color::Indexed((p - 30) as u8));
    } else if 40 <= p && p <= 47 {
        r.bg_color = Some(Color::Indexed((p - 40) as u8));
    } else if 90 <= p && p <= 97 {
        r.fg_color = Some(Color::Indexed((p - 82) as u8));
    } else if 100 <= p && p <= 107 {
        r.bg_color = Some(Color::Indexed((p - 92) as u8));
    }
    r
}

fn with_extended_exec(st: Style, fg: bool, c: Color) -> (r: Style)
    ensures
        r == with_extended(st, fg, c),
{
    let mut r = st;
    if fg {
        r.fg_color = Some(c);
    } else {
        r.bg_color = Some(c);
    }
    r
}

/// Applies the parameters of one escape sequence, left to right.
fn apply_params(ps: &Vec<u32>, style: Style) -> (r: Style)
    ensures
        r == apply_params_from(ps@, 0, style),
{
    let mut st = style;
    let mut i: usize = 0;
    while i < ps.len()
        invariant
            i <= ps.len(),
            apply_params_from(ps@, 0, style) == apply_params_from(ps@, i as nat, st),
        decreases ps.len() - i,
    {
        let p = ps[i];
        if p == 38 || p == 48 {
            let fg = p == 38;
            if i + 1 >= ps.len() {
                return st;
            }
            let sub = ps[i + 1];
            if sub == 5 {
                if i + 2 >= ps.len() {
                    return st;
                }
                st = with_extended_exec(st, fg, Color::Indexed((ps[i + 2] % 256) as u8));
                i = i + 3;
            } else if sub == 2 {
                if ps.len() - i <= 4 {
                    return st;
                }
                let c = Color::Rgb(
                    (ps[i + 2] % 256) as u8,
                    (ps[i + 3] % 256) as u8,
                    (ps[i + 4] % 256) as u8,
                );
                st = with_extended_exec(st, fg, c);
                i = i + 5;
            } else {
                i = i + 2;
            }
        } else {
            st = apply_code_exec(p, st);
            i = i + 1;
        }
    }
    st
}

/// Reads the SGR escape sequences out of `input` and returns the runs of text
/// between them, each with the style in effect where it stands. Text is never
/// lost: anything that is not an exact `ESC [ digits-and-semicolons m` stays
/// text, and empty runs are not produced.
pub fn parse_ansi(input: &str) -> (r: ParsedData)
    ensures
        r@ == parse_ansi_spec(input@),
        forall|k: int| 0 <= k < r@.len() ==> r@[k].0.len() > 0,
{
    let s = chars_of(input);
    let mut segments: Vec<Segment> = Vec::new();
    let mut style = Style::default();
    let mut start: usize = 0;
    let mut pos: usize = 0;
    while pos < s.len()
        invariant
            start <= pos <= s.len(),
            s@ == input@,
            forall|k: int| 0 <= k < segments@.len() ==> segments@[k].text@.len() > 0,
            parse_ansi_spec(s@) == runs_view(segments@) + scan_from(
                s@,
                pos as nat,
                start as nat,
                style,
            ),
        decreases s.len() - pos,
    {
        match escape_end(&s, pos) {
            Some(end) => {
                proof {
                    lemma_param_end(s@, (pos + 2) as nat);
                }
                let ghost before = runs_view(segments@);
                let ghost st0 = style;
                if start < pos {
                    let text = string_from_range(&s, start, pos);
                    segments.push(Segment { text, style });
                    assert(runs_view(segments@) =~= before.push((text@, style)));
                }
                assert(runs_view(segments@) =~= before + emit(
                    s@.subrange(start as int, pos as int),
                    st0,
                ));
                let params = read_params(&s, pos + 2, end - 1);
                style = apply_params(&params, style);
                assert(parse_ansi_spec(s@) =~= runs_view(segments@) + scan_from(
                    s@,
                    end as nat,
                    end as nat,
                    style,
                ));
                pos = end;
                start = end;
            },
            None => {
                pos = pos + 1;
            },
        }
    }
    let ghost before = runs_view(segments@);
    if start < s.len() {
        let text = string_from_range(&s, start, s.len());
        segments.push(Segment { text, style });
        assert(runs_view(segments@) =~= before.push((text@, style)));
    }
    assert(runs_view(segments@) =~= before + emit(
        s@.subrange(start as int, s.len() as int),
        style,
    ));
    StyledText { segments }
}

} // verus!
