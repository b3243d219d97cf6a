//! The HTML renderer: each run becomes a `<span>` inside one `<pre>`.
use vstd::prelude::*;

use crate::color::Color;
use crate::document::{docs_view, split_lines_spec, Segment, Style, StyledText};
use crate::text::{chars_of, decimal, join, join_strings, push_decimal, string_from_range, strings_view};

verus! {

/// The class for a palette colour in this slot, if the slot holds one.
pub open spec fn index_class(prefix: Seq<char>, c: Option<Color>) -> Seq<Seq<char>> {
    match c {
        Some(Color::Indexed(i)) => seq![prefix + decimal(i as nat)],
        _ => Seq::empty(),
    }
}

/// The inline declaration for a direct colour in this slot, if the slot holds one.
pub open spec fn rgb_decl(property: Seq<char>, c: Option<Color>) -> Seq<Seq<char>> {
    match c {
        Some(Color::Rgb(r, g, b)) => seq![
            property + ": rgb("@ + decimal(r as nat) + ", "@ + decimal(g as nat) + ", "@
                + decimal(b as nat) + ")"@,
        ],
        _ => Seq::empty(),
    }
}

/// The class `name` when `on` holds.
pub open spec fn flag_class(on: bool, name: Seq<char>) -> Seq<Seq<char>> {
    if on {
        seq![name]
    } else {
        Seq::empty()
    }
}

/// The classes of a run: palette colours after reverse video, then the attributes.
pub open spec fn style_classes(st: Style) -> Seq<Seq<char>> {
    let (fg, bg) = st.effective_colors();
    index_class("fg-"@, fg) + index_class("bg-"@, bg) + flag_class(st.bold, "bold"@) + flag_class(
        st.dim,
        "dim"@,
    ) + flag_class(st.italic, "italic"@) + flag_class(st.underline, "underline"@) + flag_class(
        st.blink,
        "blink"@,
    ) + flag_class(st.strikethrough, "strikethrough"@) + flag_class(st.hidden, "hidden"@)
}

/// The inline declarations of a run: direct colours after reverse video.
pub open spec fn style_decls(st: Style) -> Seq<Seq<char>> {
    let (fg, bg) = st.effective_colors();
    rgb_decl("color"@, fg) + rgb_decl("background-color"@, bg)
}

/// An attribute holding the joined values, or nothing when there are none.
pub open spec fn attribute(lead: Seq<char>, values: Seq<Seq<char>>, sep: Seq<char>) -> Seq<char> {
    if values.len() == 0 {
        Seq::empty()
    } else {
        lead + join(values, sep) + "\""@
    }
}

/// Every character of `t` is a space.
pub open spec fn all_spaces(t: Seq<char>) -> bool {
    forall|i: int| 0 <= i < t.len() ==> t[i] == ' '
}

/// A run is redacted when a filter is given, its effective foreground's hex
/// form equals it, and its text is all spaces.
pub open spec fn is_redacted(t: Seq<char>, st: Style, filter: Option<Seq<char>>) -> bool {
    &&& filter is Some
    &&& st.effective_colors().0 is Some
    &&& st.effective_colors().0->0.hex_spec() == filter->0
    &&& all_spaces(t)
}

/// `n` non-breaking-space entities.
pub open spec fn nbsp_run(n: nat) -> Seq<char>
    decreases n,
{
    if n == 0 {
        Seq::empty()
    } else {
        nbsp_run((n - 1) as nat) + "&nbsp;"@
    }
}

/// The markup of one non-empty run.
pub open spec fn span_html(t: Seq<char>, st: Style, filter: Option<Seq<char>>) -> Seq<char> {
    if is_redacted(t, st, filter) {
        "<span"@ + ">"@ + nbsp_run(t.len()) + "</span>"@
    } else {
        "<span"@ + attribute(" class=\""@, style_classes(st), " "@) + attribute(
            " style=\""@,
            style_decls(st),
            "; "@,
        ) + ">"@ + t + "</span>"@
    }
}

/// The markup of all runs, empty runs skipped.
pub open spec fn spans_html(runs: Seq<(Seq<char>, Style)>, filter: Option<Seq<char>>) -> Seq<char>
    decreases runs.len(),
{
    if runs.len() == 0 {
        Seq::empty()
    } else {
        let (t, st) = runs.last();
        spans_html(runs.drop_last(), filter) + if t.len() == 0 {
            Seq::empty()
        } else {
            span_html(t, st, filter)
        }
    }
}

/// The model of an optional string argument.
pub open spec fn opt_view(f: Option<&str>) -> Option<Seq<char>> {
    match f {
        Some(s) => Some(s@),
        None => None,
    }
}

fn push_index_class(classes: &mut Vec<String>, prefix: &str, c: Option<Color>)
    ensures
        strings_view(final(classes)@) == strings_view(old(classes)@) + index_class(prefix@, c),
{
    if let Some(Color::Indexed(i)) = c {
        let mut s = String::from_str(prefix);
        push_decimal(&mut s, i as u32);
        classes.push(s);
        assert(strings_view(final(classes)@) =~= strings_view(old(classes)@) + index_class(prefix@, c));
    } else {
        assert(strings_view(final(classes)@) =~= strings_view(old(classes)@) + index_class(prefix@, c));
    }
}

fn push_rgb_decl(decls: &mut Vec<String>, property: &str, c: Option<Color>)
    ensures
        strings_view(final(decls)@) == strings_view(old(decls)@) + rgb_decl(property@, c),
{
    if let Some(Color::Rgb(r, g, b)) = c {
        let mut s = String::from_str(property);
        s.append(": rgb(");
        push_decimal(&mut s, r as u32);
        s.append(", ");
        push_decimal(&mut s, g as u32);
        s.append(", ");
        push_decimal(&mut s, b as u32);
        s.append(")");
        decls.push(s);
        assert(strings_view(final(decls)@) =~= strings_view(old(decls)@) + rgb_decl(property@, c));
    } else {
        assert(strings_view(final(decls)@) =~= strings_view(old(decls)@) + rgb_decl(property@, c));
    }
}

fn push_flag_class(classes: &mut Vec<String>, on: bool, name: &str)
    ensures
        strings_view(final(classes)@) == strings_view(old(classes)@) + flag_class(on, name@),
{
    if on {
        classes.push(String::from_str(name));
    }
    assert(strings_view(final(classes)@) =~= strings_view(old(classes)@) + flag_class(on, name@));
}

/// Whether every character of `t` is a space.
fn only_spaces(t: &String) -> (r: bool)
    ensures
        r == all_spaces(t@),
{
    let chars = chars_of(t.as_str());
    let mut k: usize = 0;
    while k < chars.len()
        invariant
            k <= chars.len(),
            chars@ == t@,
            forall|i: int| 0 <= i < k ==> chars@[i] == ' ',
        decreases chars.len() - k,
    {
        if chars[k] != ' ' {
            return false;
        }
        k = k + 1;
    }
    true
}

/// Appends an attribute holding the joined values, unless there are none.
fn push_attribute(html: &mut String, lead: &str, values: &Vec<String>, sep: &str)
    ensures
        final(html)@ == old(html)@ + attribute(lead@, strings_view(values@), sep@),
{
    if values.len() > 0 {
        html.append(lead);
        let joined = join_strings(values, sep);
        html.append(joined.as_str());
        html.append("\"");
        assert(final(html)@ =~= old(html)@ + attribute(lead@, strings_view(values@), sep@));
    } else {
        assert(final(html)@ =~= old(html)@ + attribute(lead@, strings_view(values@), sep@));
    }
}

/// The classes of a run, in order.
fn classes_of(st: Style) -> (r: Vec<String>)
    ensures
        strings_view(r@) == style_classes(st),
{
    let (fg, bg) = st.effective_fg_bg();
    let mut classes: Vec<String> = Vec::new();
    push_index_class(&mut classes, "fg-", fg);
    push_index_class(&mut classes, "bg-", bg);
    push_flag_class(&mut classes, st.bold, "bold");
    push_flag_class(&mut classes, st.dim, "dim");
    push_flag_class(&mut classes, st.italic, "italic");
    push_flag_class(&mut classes, st.underline, "underline");
    push_flag_class(&mut classes, st.blink, "blink");
    push_flag_class(&mut classes, st.strikethrough, "strikethrough");
    push_flag_class(&mut classes, st.hidden, "hidden");
    assert(strings_view(classes@) =~= style_classes(st));
    classes
}

/// The inline declarations of a run, in order.
fn decls_of(st: Style) -> (r: Vec<String>)
    ensures
        strings_view(r@) == style_decls(st),
{
    let (fg, bg) = st.effective_fg_bg();
    let mut decls: Vec<String> = Vec::new();
    push_rgb_decl(&mut decls, "color", fg);
    push_rgb_decl(&mut decls, "background-color", bg);
    assert(strings_view(decls@) =~= style_decls(st));
    decls
}

/// Whether the run is to be redacted under the filter.
fn redacts(seg: &Segment, filter: Option<&str>) -> (r: bool)
    ensures
        r == is_redacted(seg.text@, seg.style, opt_view(filter)),
{
    let (fg, _bg) = seg.style.effective_fg_bg();
    match (fg, filter) {
        (Some(c), Some(f)) => {
            let hex = c.to_hex();
            let wanted = String::from_str(f);
            hex == wanted && only_spaces(&seg.text)
        },
        _ => false,
    }
}

/// Appends the markup of one non-empty run.
fn push_span(html: &mut String, seg: &Segment, filter: Option<&str>)
    ensures
        final(html)@ == old(html)@ + span_html(seg.text@, seg.style, opt_view(filter)),
{
    if redacts(seg, filter) {
        html.append("<span");
        html.append(">");
        let chars = chars_of(seg.text.as_str());
        let n = chars.len();
        let mut k: usize = 0;
        let ghost base = html@;
        while k < n
            invariant
                k <= n,
                html@ == base + nbsp_run(k as nat),
            decreases n - k,
        {
            html.append("&nbsp;");
            k = k + 1;
        }
        html.append("</span>");
        assert(final(html)@ =~= old(html)@ + span_html(seg.text@, seg.style, opt_view(filter)));
    } else {
        let classes = classes_of(seg.style);
        let decls = decls_of(seg.style);
        html.append("<span");
        push_attribute(html, " class=\"", &classes, " ");
        push_attribute(html, " style=\"", &decls, "; ");
        html.append(">");
        html.append(seg.text.as_str());
        html.append("</span>");
        assert(final(html)@ =~= old(html)@ + span_html(seg.text@, seg.style, opt_view(filter)));
    }
}

impl StyledText {
    /// The markup of all runs of this document, empty runs skipped.
    fn generate_html_spans(&self, filter_hex: Option<&str>) -> (r: String)
        ensures
            r@ == spans_html(self@, opt_view(filter_hex)),
    {
        let mut html = String::new();
        let mut k: usize = 0;
        while k < self.segments.len()
            invariant
                k <= self.segments.len(),
                html@ == spans_html(self@.take(k as int), opt_view(filter_hex)),
            decreases self.segments.len() - k,
        {
            let seg = &self.segments[k];
            let ghost t = self@.take(k as int + 1);
            assert(t.drop_last() =~= self@.take(k as int));
            assert(t.last() == seg@);
            if !seg.text.as_str().is_empty() {
                push_span(&mut html, seg, filter_hex);
            } else {
                assert(html@ =~= spans_html(t, opt_view(filter_hex)));
            }
            k = k + 1;
        }
        assert(self@.take(self.segments.len() as int) =~= self@);
        html
    }
}

/// A character that the regular-expression class `\s` matches: Unicode White_Space.
pub open spec fn is_white_space(c: char) -> bool {
    ('\t' <= c && c <= '\r') || c == ' ' || c == '\u{85}' || c == '\u{a0}' || c == '\u{1680}'
        || ('\u{2000}' <= c && c <= '\u{200a}') || c == '\u{2028}' || c == '\u{2029}' || c
        == '\u{202f}' || c == '\u{205f}' || c == '\u{3000}'
}

/// `s` holds `lit` at index `i`.
pub open spec fn has_at(s: Seq<char>, i: nat, lit: Seq<char>) -> bool {
    i + lit.len() <= s.len() && s.subrange(i as int, i as int + lit.len()) == lit
}

/// The first index at or after `j` that holds `>`, or the length of `s`.
pub open spec fn tag_close(s: Seq<char>, j: nat) -> nat
    decreases s.len() - j,
{
    if j < s.len() && s[j as int] != '>' {
        tag_close(s, j + 1)
    } else {
        j
    }
}

/// The end of the `&nbsp;` entities that follow one another from `j` on.
pub open spec fn nbsp_end(s: Seq<char>, j: nat) -> nat
    decreases s.len() - j,
    via nbsp_end_decreases
{
    if j < s.len() && has_at(s, j, "&nbsp;"@) {
        nbsp_end(s, j + "&nbsp;"@.len())
    } else {
        j
    }
}

#[via_fn]
proof fn nbsp_end_decreases(s: Seq<char>, j: nat) {
    reveal_strlit("&nbsp;");
}

/// The end of the white space that begins at `j`.
pub open spec fn space_end(s: Seq<char>, j: nat) -> nat
    decreases s.len() - j,
{
    if j < s.len() && is_white_space(s[j as int]) {
        space_end(s, j + 1)
    } else {
        j
    }
}

/// Where the blank span that begins at `i` ends, with the white space after
/// it: `<span`, anything but `>`, `>`, one or more `&nbsp;`, `</span>`.
pub open spec fn blank_span_at(s: Seq<char>, i: nat) -> Option<nat> {
    if has_at(s, i, "<span"@) {
        let g = tag_close(s, i + "<span"@.len());
        if g < s.len() {
            let k = nbsp_end(s, g + 1);
            if k > g + 1 && has_at(s, k, "</span>"@) {
                Some(space_end(s, k + "</span>"@.len()))
            } else {
                None
            }
        } else {
            None
        }
    } else {
        None
    }
}

/// `s` from `i` on is one or more blank spans and nothing else.
pub open spec fn blank_tail_from(s: Seq<char>, i: nat) -> bool
    decreases s.len() - i,
    via blank_tail_decreases
{
    match blank_span_at(s, i) {
        Some(e) => e >= s.len() || blank_tail_from(s, e),
        None => false,
    }
}

#[via_fn]
proof fn blank_tail_decreases(s: Seq<char>, i: nat) {
    if blank_span_at(s, i) is Some {
        lemma_blank_span_bounds(s, i);
    }
}

/// The first index at or after `i` where a blank tail begins, or the length of `s`.
pub open spec fn first_blank_tail(s: Seq<char>, i: nat) -> nat
    decreases s.len() - i,
{
    if i >= s.len() {
        s.len()
    } else if blank_tail_from(s, i) {
        i
    } else {
        first_blank_tail(s, i + 1)
    }
}

/// The markup without its trailing blank spans.
pub open spec fn strip_blank_tail(s: Seq<char>) -> Seq<char> {
    s.take(first_blank_tail(s, 0) as int)
}

/// The markup of each line under the filter, trailing blank spans removed;
/// a line whose markup comes out empty keeps its place.
pub open spec fn filtered_lines(lines: Seq<Seq<(Seq<char>, Style)>>, f: Seq<char>) -> Seq<
    Seq<char>,
>
    decreases lines.len(),
{
    if lines.len() == 0 {
        Seq::empty()
    } else {
        filtered_lines(lines.drop_last(), f).push(
            strip_blank_tail(spans_html(lines.last(), Some(f))),
        )
    }
}

/// The HTML of a document: without a filter all runs in one `<pre>`; with one,
/// line by line, joined with newlines.
pub open spec fn html_spec(runs: Seq<(Seq<char>, Style)>, filter: Option<Seq<char>>) -> Seq<char> {
    match filter {
        None => "<pre>"@ + spans_html(runs, None) + "</pre>"@,
        Some(f) => "<pre>"@ + join(filtered_lines(split_lines_spec(runs), f), seq!['\n'])
            + "</pre>"@,
    }
}

proof fn lemma_scan_bounds(s: Seq<char>, j: nat)
    ensures
        j <= tag_close(s, j),
        j <= s.len() ==> tag_close(s, j) <= s.len(),
        j <= nbsp_end(s, j),
        j <= s.len() ==> nbsp_end(s, j) <= s.len(),
        j <= space_end(s, j),
        j <= s.len() ==> space_end(s, j) <= s.len(),
    decreases s.len() - j,
{
    if j < s.len() {
        lemma_scan_bounds(s, j + 1);
        reveal_strlit("&nbsp;");
        if has_at(s, j, "&nbsp;"@) {
            lemma_scan_bounds(s, j + "&nbsp;"@.len());
        }
    }
}

proof fn lemma_blank_span_bounds(s: Seq<char>, i: nat)
    requires
        blank_span_at(s, i) is Some,
    ensures
        blank_span_at(s, i)->0 > i,
        blank_span_at(s, i)->0 <= s.len(),
{
    reveal_strlit("<span");
    reveal_strlit("</span>");
    let g = tag_close(s, i + 5);
    lemma_scan_bounds(s, i + 5);
    lemma_scan_bounds(s, g + 1);
    let k = nbsp_end(s, g + 1);
    lemma_scan_bounds(s, k + 7);
}

/// Whether `s` holds `lit` at `i`.
fn has_at_exec(s: &Vec<char>, i: usize, lit: &str) -> (r: bool)
    ensures
        r == has_at(s@, i as nat, lit@),
{
    let l = chars_of(lit);
    if i > s.len() || l.len() > s.len() - i {
        return false;
    }
    let mut k: usize = 0;
    while k < l.len()
        invariant
            l@ == lit@,
            i + l.len() <= s.len(),
            k <= l.len(),
            forall|q: int| 0 <= q < k ==> s@[i + q] == l@[q],
        decreases l.len() - k,
    {
        if s[i + k] != l[k] {
            assert(s@.subrange(i as int, i + l.len())[k as int] != lit@[k as int]);
            return false;
        }
        k = k + 1;
    }
    assert(s@.subrange(i as int, i + l.len()) =~= lit@);
    true
}

fn is_white_space_exec(c: char) -> (r: bool)
    ensures
        r == is_white_space(c),
{
    ('\t' <= c && c <= '\r') || c == ' ' || c == '\u{85}' || c == '\u{a0}' || c == '\u{1680}'
        || ('\u{2000}' <= c && c <= '\u{200a}') || c == '\u{2028}' || c == '\u{2029}' || c
        == '\u{202f}' || c == '\u{205f}' || c == '\u{3000}'
}

/// Exec form of `blank_span_at`.
fn blank_span_end(s: &Vec<char>, i: usize) -> (r: Option<usize>)
    requires
        i <= s.len(),
    ensures
        r is Some <==> blank_span_at(s@, i as nat) is Some,
        r is Some ==> blank_span_at(s@, i as nat) == Some(r->0 as nat),
{
    proof {
        reveal_strlit("<span");
        reveal_strlit("</span>");
        reveal_strlit("&nbsp;");
    }
    if !has_at_exec(s, i, "<span") {
        return None;
    }
    let mut g: usize = i + 5;
    while g < s.len() && s[g] != '>'
        invariant
            i + 5 <= g <= s.len(),
            tag_close(s@, (i + 5) as nat) == tag_close(s@, g as nat),
        decreases s.len() - g,
    {
        g = g + 1;
    }
    if g >= s.len() {
        return None;
    }
    let mut k: usize = g + 1;
    while k < s.len() && has_at_exec(s, k, "&nbsp;")
        invariant
            g + 1 <= k <= s.len(),
            nbsp_end(s@, (g + 1) as nat) == nbsp_end(s@, k as nat),
        decreases s.len() - k,
    {
        proof {
            reveal_strlit("&nbsp;");
        }
        k = k + 6;
    }
    if k == g + 1 || !has_at_exec(s, k, "</span>") {
        return None;
    }
    let mut w: usize = k + 7;
    while w < s.len() && is_white_space_exec(s[w])
        invariant
            k + 7 <= w <= s.len(),
            space_end(s@, (k + 7) as nat) == space_end(s@, w as nat),
        decreases s.len() - w,
    {
        w = w + 1;
    }
    Some(w)
}

/// Whether `s` from `i` on is one or more blank spans and nothing else.
fn blank_tail_exec(s: &Vec<char>, i: usize) -> (r: bool)
    requires
        i <= s.len(),
    ensures
        r == blank_tail_from(s@, i as nat),
{
    let mut pos: usize = i;
    loop
        invariant
            pos <= s.len(),
            blank_tail_from(s@, i as nat) == blank_tail_from(s@, pos as nat),
        decreases s.len() - pos,
    {
        match blank_span_end(s, pos) {
            Some(e) => {
                proof {
                    lemma_blank_span_bounds(s@, pos as nat);
                }
                if e >= s.len() {
                    return true;
                }
                pos = e;
            },
            None => {
                return false;
            },
        }
    }
}

/// Removes the blank spans at the end of a line of markup.
fn strip_trailing_blank_spans(html: &String) -> (r: String)
    ensures
        r@ == strip_blank_tail(html@),
{
    let s = chars_of(html.as_str());
    let mut i: usize = 0;
    while i < s.len()
        invariant
            i <= s.len(),
            s@ == html@,
            first_blank_tail(s@, 0) == first_blank_tail(s@, i as nat),
        decreases s.len() - i,
    {
        if blank_tail_exec(&s, i) {
            return string_from_range(&s, 0, i);
        }
        i = i + 1;
    }
    assert(s@.take(s.len() as int) =~= s@);
    string_from_range(&s, 0, s.len())
}

impl StyledText {
    /// The document as HTML: one `<pre>` holding a `<span>` per non-empty run.
    pub fn to_html(&self) -> (r: String)
        ensures
            r@ == html_spec(self@, None),
    {
        self.to_html_with_filter(None)
    }

    /// The document as HTML. With a filter, lines are rendered one by one; a
    /// run whose effective foreground has the filter's hex form and whose text
    /// is all spaces is redacted to `&nbsp;` entities without styling, blank
    /// spans at the end of a line are dropped, and the lines are joined with
    /// newlines, an empty line included.
    pub fn to_html_with_filter(&self, filter_hex: Option<&str>) -> (r: String)
        ensures
            r@ == html_spec(self@, opt_view(filter_hex)),
    {
        match filter_hex {
            None => {
                let mut out = String::from_str("<pre>");
                let spans = self.generate_html_spans(None);
                out.append(spans.as_str());
                out.append("</pre>");
                assert(out@ =~= html_spec(self@, None));
                out
            },
            Some(f) => {
                let lines = self.split_lines();
                let mut line_markup: Vec<String> = Vec::new();
                let mut k: usize = 0;
                while k < lines.len()
                    invariant
                        k <= lines.len(),
                        filter_hex == Some(f),
                        docs_view(lines@) == split_lines_spec(self@),
                        strings_view(line_markup@) == filtered_lines(
                            docs_view(lines@).take(k as int),
                            f@,
                        ),
                    decreases lines.len() - k,
                {
                    let ghost t = docs_view(lines@).take(k as int + 1);
                    assert(t.drop_last() =~= docs_view(lines@).take(k as int));
                    assert(t.last() == lines@[k as int]@);
                    let spans = lines[k].generate_html_spans(filter_hex);
                    let h = strip_trailing_blank_spans(&spans);
                    let ghost before = strings_view(line_markup@);
                    line_markup.push(h);
                    assert(strings_view(line_markup@) =~= before.push(h@));
                    k = k + 1;
                }
                assert(docs_view(lines@).take(lines.len() as int) =~= docs_view(lines@));
                let body = join_strings(&line_markup, "\n");
                proof {
                    reveal_strlit("\n");
                    assert("\n"@ =~= seq!['\n']);
                }
                let mut out = String::from_str("<pre>");
                out.append(body.as_str());
                out.append("</pre>");
                assert(out@ =~= html_spec(self@, opt_view(filter_hex)));
                out
            },
        }
    }
}

} // verus!
