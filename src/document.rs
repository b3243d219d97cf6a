//! The styled document: runs of text, each with the style it was emitted in.
use vstd::prelude::*;

use crate::color::Color;
use crate::text::{chars_of, join, lacks, lemma_split_char, split_char, strings_view};

verus! {

/// The text attributes in effect for a run.
#[derive(Debug, Clone, Copy, PartialEq, Eq, Structural)]
pub struct Style {
    pub fg_color: Option<Color>,
    pub bg_color: Option<Color>,
    pub bold: bool,
    pub dim: bool,
    pub italic: bool,
    pub underline: bool,
    pub blink: bool,
    pub reverse: bool,
    pub hidden: bool,
    pub strikethrough: bool,
}

/// No colours and every attribute off.
pub open spec fn plain_style() -> Style {
    Style {
        fg_color: None,
        bg_color: None,
        bold: false,
        dim: false,
        italic: false,
        underline: false,
        blink: false,
        reverse: false,
        hidden: false,
        strikethrough: false,
    }
}

impl Default for Style {
    fn default() -> (r: Style)
        ensures
            r == plain_style(),
    {
        Style {
            fg_color: None,
            bg_color: None,
            bold: false,
            dim: false,
            italic: false,
            underline: false,
            blink: false,
            reverse: false,
            hidden: false,
            strikethrough: false,
        }
    }
}

impl Style {
    /// The foreground and background used for rendering: swapped under reverse video.
    pub open spec fn effective_colors(self) -> (Option<Color>, Option<Color>) {
        if self.reverse {
            (self.bg_color, self.fg_color)
        } else {
            (self.fg_color, self.bg_color)
        }
    }

    pub fn effective_fg_bg(&self) -> (r: (Option<Color>, Option<Color>))
        ensures
            r == self.effective_colors(),
    {
        if self.reverse {
            (self.bg_color, self.fg_color)
        } else {
            (self.fg_color, self.bg_color)
        }
    }
}

/// A run of text and the style it carries.
#[derive(Debug, Clone, PartialEq, Eq)]
pub struct Segment {
    pub text: String,
    pub style: Style,
}

impl View for Segment {
    type V = (Seq<char>, Style);

    open spec fn view(&self) -> (Seq<char>, Style) {
        (self.text@, self.style)
    }
}

/// A document: its runs in input order.
#[derive(Debug, Clone, PartialEq, Eq)]
pub struct StyledText {
    pub segments: Vec<Segment>,
}

/// The model of a document: each run as its characters and its style.
pub open spec fn runs_view(segs: Seq<Segment>) -> Seq<(Seq<char>, Style)> {
    segs.map_values(|s: Segment| s@)
}

impl View for StyledText {
    type V = Seq<(Seq<char>, Style)>;

    open spec fn view(&self) -> Seq<(Seq<char>, Style)> {
        runs_view(self.segments@)
    }
}

/// A line with the run `(part, style)` added, unless `part` is empty.
pub open spec fn add_fragment(
    line: Seq<(Seq<char>, Style)>,
    part: Seq<char>,
    style: Style,
) -> Seq<(Seq<char>, Style)> {
    if part.len() > 0 {
        line.push((part, style))
    } else {
        line
    }
}

/// Feeds the pieces of one run into (finished lines, current line): each piece
/// after the first begins a new line.
pub open spec fn feed_parts(
    done: Seq<Seq<(Seq<char>, Style)>>,
    cur: Seq<(Seq<char>, Style)>,
    parts: Seq<Seq<char>>,
    style: Style,
) -> (Seq<Seq<(Seq<char>, Style)>>, Seq<(Seq<char>, Style)>)
    decreases parts.len(),
{
    if parts.len() == 0 {
        (done, cur)
    } else if parts.len() == 1 {
        (done, add_fragment(cur, parts[0], style))
    } else {
        let (d, c) = feed_parts(done, cur, parts.drop_last(), style);
        (d.push(c), add_fragment(Seq::empty(), parts.last(), style))
    }
}

/// The finished lines and the open line after reading all of `runs`.
pub open spec fn split_state(runs: Seq<(Seq<char>, Style)>) -> (
    Seq<Seq<(Seq<char>, Style)>>,
    Seq<(Seq<char>, Style)>,
)
    decreases runs.len(),
{
    if runs.len() == 0 {
        (Seq::empty(), Seq::empty())
    } else {
        let (d, c) = split_state(runs.drop_last());
        feed_parts(d, c, split_char(runs.last().0, '\n'), runs.last().1)
    }
}

/// The lines of a document: every newline ends a line; the last line is kept
/// only if it holds a run.
pub open spec fn split_lines_spec(runs: Seq<(Seq<char>, Style)>) -> Seq<Seq<(Seq<char>, Style)>> {
    let (d, c) = split_state(runs);
    if c.len() > 0 {
        d.push(c)
    } else {
        d
    }
}

/// The characters of all runs, concatenated.
pub open spec fn runs_text(runs: Seq<(Seq<char>, Style)>) -> Seq<char>
    decreases runs.len(),
{
    if runs.len() == 0 {
        Seq::empty()
    } else {
        runs_text(runs.drop_last()) + runs.last().0
    }
}

/// The text of each line.
pub open spec fn line_texts(lines: Seq<Seq<(Seq<char>, Style)>>) -> Seq<Seq<char>> {
    lines.map_values(|l: Seq<(Seq<char>, Style)>| runs_text(l))
}

/// The model of each line of a list of documents.
pub open spec fn docs_view(v: Seq<StyledText>) -> Seq<Seq<(Seq<char>, Style)>> {
    v.map_values(|d: StyledText| d@)
}

/// Cuts `text` at every newline, dropping the newlines.
fn split_newlines(text: &String) -> (r: Vec<String>)
    ensures
        strings_view(r@) == split_char(text@, '\n'),
{
    let chars = chars_of(text.as_str());
    let mut parts: Vec<String> = Vec::new();
    let mut cur = String::new();
    let mut i: usize = 0;
    while i < chars.len()
        invariant
            i <= chars.len(),
            chars@ == text@,
            strings_view(parts@).push(cur@) == split_char(chars@.take(i as int), '\n'),
        decreases chars.len() - i,
    {
        let c = chars[i];
        proof {
            let t = chars@.take(i as int + 1);
            assert(t.drop_last() =~= chars@.take(i as int));
            assert(t.last() == c);
        }
        if c == '\n' {
            parts.push(cur);
            cur = String::new();
            assert(strings_view(parts@).push(cur@) =~= split_char(chars@.take(i as int), '\n').push(
                Seq::empty(),
            ));
        } else {
            let ghost before = cur@;
            cur.push(c);
            assert(strings_view(parts@).push(cur@) =~= split_char(chars@.take(i as int), '\n').update(
                strings_view(parts@).len() as int,
                before.push(c),
            ));
        }
        i = i + 1;
    }
    assert(chars@.take(chars.len() as int) =~= chars@);
    parts.push(cur);
    parts
}

impl StyledText {
    /// The runs of this document.
    pub fn segments(&self) -> (r: &[Segment])
        ensures
            r@ == self.segments@,
    {
        self.segments.as_slice()
    }

    /// Splits the document at every newline. Each non-empty piece of a run
    /// becomes a run of its own with the same style; a newline always ends the
    /// current line, even an empty one; a last line with no run is dropped.
    pub fn split_lines(&self) -> (r: Vec<StyledText>)
        ensures
            docs_view(r@) == split_lines_spec(self@),
            forall|i: int| 0 <= i < r@.len() ==> clean_line(#[trigger] r@[i]@),
    {
        let mut lines: Vec<StyledText> = Vec::new();
        let mut current: Vec<Segment> = Vec::new();
        let mut k: usize = 0;
        while k < self.segments.len()
            invariant
                k <= self.segments.len(),
                (docs_view(lines@), runs_view(current@)) == split_state(self@.take(k as int)),
                forall|i: int| 0 <= i < lines@.len() ==> clean_line(#[trigger] lines@[i]@),
                clean_line(runs_view(current@)),
            decreases self.segments.len() - k,
        {
            let seg = &self.segments[k];
            let parts = split_newlines(&seg.text);
            proof {
                lemma_split_char(seg.text@, '\n');
                assert forall|q: int| 0 <= q < parts@.len() implies lacks(#[trigger] parts@[q]@, '\n') by {
                    assert(strings_view(parts@)[q] == parts@[q]@);
                }
            }
            let ghost d0 = docs_view(lines@);
            let ghost c0 = runs_view(current@);
            proof {
                let t = self@.take(k as int + 1);
                assert(t.drop_last() =~= self@.take(k as int));
                assert(t.last() == seg@);
            }
            let mut j: usize = 0;
            while j < parts.len()
                invariant
                    j <= parts.len(),
                    strings_view(parts@) == split_char(seg.text@, '\n'),
                    forall|q: int| 0 <= q < parts@.len() ==> lacks(#[trigger] parts@[q]@, '\n'),
                    forall|i: int| 0 <= i < lines@.len() ==> clean_line(#[trigger] lines@[i]@),
                    clean_line(runs_view(current@)),
                    (docs_view(lines@), runs_view(current@)) == feed_parts(
                        d0,
                        c0,
                        strings_view(parts@).take(j as int),
                        seg.style,
                    ),
                decreases parts.len() - j,
            {
                let ghost pv = strings_view(parts@).take(j as int + 1);
                assert(pv.drop_last() =~= strings_view(parts@).take(j as int));
                if j > 0 {
                    let ghost cur_view = runs_view(current@);
                    let line = StyledText { segments: current };
                    lines.push(line);
                    current = Vec::new();
                    assert(docs_view(lines@) =~= docs_view(lines@).drop_last().push(cur_view));
                    assert(runs_view(current@) =~= Seq::empty());
                }
                if !parts[j].as_str().is_empty() {
                    let ghost before = runs_view(current@);
                    current.push(Segment { text: parts[j].clone(), style: seg.style });
                    assert(runs_view(current@) =~= before.push((parts@[j as int]@, seg.style)));
                    assert forall|q: int| 0 <= q < runs_view(current@).len() implies runs_view(
                        current@,
                    )[q].0.len() > 0 && no_newline(#[trigger] runs_view(current@)[q].0) by {
                        if q < before.len() {
                            assert(runs_view(current@)[q] == before[q]);
                        }
                    }
                }
                j = j + 1;
            }
            assert(strings_view(parts@).take(parts.len() as int) =~= strings_view(parts@));
            k = k + 1;
        }
        assert(self@.take(self.segments.len() as int) =~= self@);
        if current.len() > 0 {
            let ghost cur_view = runs_view(current@);
            lines.push(StyledText { segments: current });
            assert(docs_view(lines@) =~= docs_view(lines@).drop_last().push(cur_view));
        }
        lines
    }
}

/// No character of `t` is a newline.
pub open spec fn no_newline(t: Seq<char>) -> bool {
    lacks(t, '\n')
}

/// Every run of the line is non-empty and holds no newline.
pub open spec fn clean_line(line: Seq<(Seq<char>, Style)>) -> bool {
    forall|k: int| 0 <= k < line.len() ==> line[k].0.len() > 0 && no_newline(#[trigger] line[k].0)
}

/// The text of the lines, each followed by a newline.
pub open spec fn terminated_text(lines: Seq<Seq<(Seq<char>, Style)>>) -> Seq<char>
    decreases lines.len(),
{
    if lines.len() == 0 {
        Seq::empty()
    } else {
        terminated_text(lines.drop_last()) + runs_text(lines.last()) + seq!['\n']
    }
}

proof fn lemma_clean_text(line: Seq<(Seq<char>, Style)>)
    requires
        clean_line(line),
    ensures
        no_newline(runs_text(line)),
        line.len() > 0 <==> runs_text(line).len() > 0,
    decreases line.len(),
{
    if line.len() > 0 {
        let u = line.drop_last();
        assert(clean_line(u)) by {
            assert forall|k: int| 0 <= k < u.len() implies u[k].0.len() > 0 && no_newline(
                #[trigger] u[k].0,
            ) by {
                assert(u[k] == line[k]);
            }
        }
        lemma_clean_text(u);
        assert(no_newline(line[line.len() - 1].0));
        let a = runs_text(u);
        let b = line.last().0;
        assert forall|i: int| 0 <= i < (a + b).len() implies (a + b)[i] != '\n' by {
            if i >= a.len() {
                assert((a + b)[i] == b[i - a.len()]);
            }
        }
    }
}

proof fn lemma_feed_text(
    done: Seq<Seq<(Seq<char>, Style)>>,
    cur: Seq<(Seq<char>, Style)>,
    parts: Seq<Seq<char>>,
    style: Style,
)
    requires
        parts.len() >= 1,
        clean_line(cur),
        forall|k: int| 0 <= k < parts.len() ==> no_newline(#[trigger] parts[k]),
    ensures
        ({
            let (d, c) = feed_parts(done, cur, parts, style);
            &&& terminated_text(d) + runs_text(c) == terminated_text(done) + runs_text(cur) + join(
                parts,
                seq!['\n'],
            )
            &&& clean_line(c)
        }),
    decreases parts.len(),
{
    let nl = seq!['\n'];
    if parts.len() == 1 {
        let c = add_fragment(cur, parts[0], style);
        if parts[0].len() > 0 {
            assert(c.drop_last() =~= cur);
            assert(no_newline(parts[0]));
            assert forall|k: int| 0 <= k < c.len() implies c[k].0.len() > 0 && no_newline(
                #[trigger] c[k].0,
            ) by {
                if k < cur.len() {
                    assert(c[k] == cur[k]);
                }
            }
        } else {
            assert(parts[0] =~= Seq::<char>::empty());
        }
        assert(runs_text(c) =~= runs_text(cur) + parts[0]);
    } else {
        let pre = parts.drop_last();
        assert forall|k: int| 0 <= k < pre.len() implies no_newline(#[trigger] pre[k]) by {
            assert(pre[k] == parts[k]);
        }
        lemma_feed_text(done, cur, pre, style);
        let (d1, c1) = feed_parts(done, cur, pre, style);
        let d = d1.push(c1);
        let c = add_fragment(Seq::empty(), parts.last(), style);
        assert(d.drop_last() =~= d1);
        assert(no_newline(parts[parts.len() - 1]));
        if parts.last().len() > 0 {
            assert(c.drop_last() =~= Seq::<(Seq<char>, Style)>::empty());
        } else {
            assert(parts.last() =~= Seq::<char>::empty());
        }
        assert(runs_text(Seq::<(Seq<char>, Style)>::empty()) =~= Seq::<char>::empty());
        assert(runs_text(c) =~= parts.last());
        assert(terminated_text(d) + runs_text(c) =~= terminated_text(done) + runs_text(cur) + join(
            pre,
            nl,
        ) + nl + parts.last());
    }
}

proof fn lemma_split_state_text(runs: Seq<(Seq<char>, Style)>)
    ensures
        ({
            let (d, c) = split_state(runs);
            &&& terminated_text(d) + runs_text(c) == runs_text(runs)
            &&& clean_line(c)
        }),
    decreases runs.len(),
{
    if runs.len() == 0 {
        assert(terminated_text(Seq::empty()) + runs_text(Seq::empty()) =~= Seq::<char>::empty());
    } else {
        let u = runs.drop_last();
        lemma_split_state_text(u);
        let (d, c) = split_state(u);
        lemma_split_char(runs.last().0, '\n');
        lemma_feed_text(d, c, split_char(runs.last().0, '\n'), runs.last().1);
    }
}

proof fn lemma_terminated_join(lines: Seq<Seq<(Seq<char>, Style)>>)
    requires
        lines.len() >= 1,
    ensures
        terminated_text(lines) == join(line_texts(lines), seq!['\n']) + seq!['\n'],
    decreases lines.len(),
{
    let u = lines.drop_last();
    assert(line_texts(lines).drop_last() =~= line_texts(u));
    if lines.len() == 1 {
        assert(terminated_text(u) =~= Seq::<char>::empty());
        assert(terminated_text(lines) =~= runs_text(lines[0]) + seq!['\n']);
    } else {
        lemma_terminated_join(u);
    }
}

/// Joining the texts of the lines that `split_lines` gives with newlines
/// restores the document's text, except that a final newline is dropped.
pub proof fn lemma_split_lines_rejoin(runs: Seq<(Seq<char>, Style)>)
    ensures
        ({
            let t = runs_text(runs);
            join(line_texts(split_lines_spec(runs)), seq!['\n']) == if t.len() > 0 && t.last()
                == '\n' {
                t.drop_last()
            } else {
                t
            }
        }),
{
    let nl = seq!['\n'];
    let t = runs_text(runs);
    let (d, c) = split_state(runs);
    lemma_split_state_text(runs);
    lemma_clean_text(c);
    if c.len() > 0 {
        let lines = d.push(c);
        assert(line_texts(lines).drop_last() =~= line_texts(d));
        assert(line_texts(lines).last() == runs_text(c));
        if d.len() == 0 {
            assert(terminated_text(d) =~= Seq::<char>::empty());
            assert(t =~= runs_text(c));
        } else {
            lemma_terminated_join(d);
        }
        let rc = runs_text(c);
        assert(t.last() == rc[rc.len() - 1]);
    } else if d.len() > 0 {
        lemma_terminated_join(d);
        assert(runs_text(c) =~= Seq::<char>::empty());
        assert(t =~= join(line_texts(d), nl) + nl);
        assert(t.drop_last() =~= join(line_texts(d), nl));
    } else {
        assert(terminated_text(d) =~= Seq::<char>::empty());
        assert(runs_text(c) =~= Seq::<char>::empty());
        assert(line_texts(d) =~= Seq::<Seq<char>>::empty());
    }
}

} // verus!
