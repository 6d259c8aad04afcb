//! The view state machine: which presentation is active and where the
//! window onto the document stands.

use crate::normalize::{md_events_of, no_blank_run, normalized, render_markdown_text, trim};
use crate::text::{chars_of, string_of_range};
use crate::tokenize::{find_char_exec, find_char_from, lemma_find_char_bounds, line_tokens, segments_view, tokenize_line, Style, StyledSegment};
use vstd::prelude::*;

verus! {

/// The three presentations of a document.
#[derive(Clone, Copy, Debug, PartialEq, Eq, Structural)]
pub enum ViewMode {
    Rendered,
    Source,
    SideBySide,
}

/// The mode that one advance action leads to.
pub open spec fn next_mode(m: ViewMode) -> ViewMode {
    match m {
        ViewMode::Rendered => ViewMode::Source,
        ViewMode::Source => ViewMode::SideBySide,
        ViewMode::SideBySide => ViewMode::Rendered,
    }
}

/// An input action of the viewer.
#[derive(Clone, Copy, Debug, PartialEq, Eq, Structural)]
pub enum Action {
    Advance,
    LineUp,
    LineDown,
    PageUp,
    PageDown,
    Home,
    End,
    Quit,
    Help,
    Ignore,
}

/// What the event loop does after an action.
#[derive(Clone, Copy, Debug, PartialEq, Eq, Structural)]
pub enum Outcome {
    Continue,
    ShowHelp,
    Quit,
}

/// Lines that a page scroll moves by.
pub const PAGE: usize = 10;

/// A line without the carriage return that may end it.
pub open spec fn strip_cr(l: Seq<char>) -> Seq<char> {
    if l.len() > 0 && l.last() == '\r' {
        l.drop_last()
    } else {
        l
    }
}

/// The lines of `s` from index `i` on: split at each `\n`, a `\r` just
/// before it dropped, and no empty line after a final line ending.
pub open spec fn lines_from(s: Seq<char>, i: int) -> Seq<Seq<char>>
    decreases s.len() - i,
    via lines_from_decreases
{
    if i < 0 || i >= s.len() {
        seq![]
    } else {
        let e = find_char_from(s, i, '\n');
        if e < 0 {
            seq![s.subrange(i, s.len() as int)]
        } else {
            seq![strip_cr(s.subrange(i, e))] + lines_from(s, e + 1)
        }
    }
}

#[via_fn]
proof fn lines_from_decreases(s: Seq<char>, i: int) {
    lemma_find_char_bounds(s, i, '\n');
}

/// The lines of a text.
pub open spec fn text_lines(s: Seq<char>) -> Seq<Seq<char>> {
    lines_from(s, 0)
}

pub open spec fn lines_view(v: Seq<String>) -> Seq<Seq<char>> {
    v.map_values(|l: String| l@)
}

/// Splits `s` into its lines, without their line endings.
pub fn lines_of(s: &str) -> (r: Vec<String>)
    ensures
        lines_view(r@) == text_lines(s@),
{
    let v = chars_of(s);
    let n = v.len();
    let mut out: Vec<String> = Vec::new();
    let mut i: usize = 0;
    while i < n
        invariant
            v@ == s@,
            n == v.len(),
            i <= n,
            lines_view(out@) + lines_from(v@, i as int) == text_lines(v@),
        decreases n - i,
    {
        let ghost before = lines_view(out@);
        let ghost rest = lines_from(v@, i as int);
        match find_char_exec(&v, i, '\n') {
            None => {
                out.push(string_of_range(&v, i, n));
                i = n;
            },
            Some(e) => {
                proof { lemma_find_char_bounds(v@, i as int, '\n'); }
                let end = if e > i && v[e - 1] == '\r' {
                    e - 1
                } else {
                    e
                };
                if e > i {
                    assert(v@.subrange(i as int, e as int).drop_last() =~= v@.subrange(
                        i as int,
                        e - 1,
                    ));
                }
                out.push(string_of_range(&v, i, end));
                i = e + 1;
            },
        }
        proof {
            assert(lines_view(out@) =~= before.push(lines_view(out@).last()));
            assert(lines_from(v@, n as int) =~= seq![]);
            assert(rest =~= seq![lines_view(out@).last()] + lines_from(v@, i as int));
            assert(lines_view(out@) + lines_from(v@, i as int) =~= before + rest);
        }
    }
    assert(lines_from(v@, n as int) =~= seq![]);
    assert(lines_view(out@) =~= lines_view(out@) + lines_from(v@, n as int));
    out
}

pub open spec fn has_suffix(s: Seq<char>, suffix: Seq<char>) -> bool {
    s.len() >= suffix.len() && s.subrange(s.len() - suffix.len(), s.len() as int) == suffix
}

/// A path names a markdown document when it ends in `.md` or `.markdown`.
pub open spec fn markdown_path(p: Seq<char>) -> bool {
    has_suffix(p, seq!['.', 'm', 'd']) || has_suffix(
        p,
        seq!['.', 'm', 'a', 'r', 'k', 'd', 'o', 'w', 'n'],
    )
}

/// The line count that bounds scrolling in a mode.
pub open spec fn active_count(mode: ViewMode, rendered_len: nat, source_len: nat) -> nat {
    match mode {
        ViewMode::Rendered => rendered_len,
        ViewMode::Source => source_len,
        ViewMode::SideBySide => if rendered_len > source_len {
            rendered_len
        } else {
            source_len
        },
    }
}

/// The last offset that a count of lines admits: zero when there are none.
pub open spec fn last_offset(count: int) -> int {
    if count > 0 {
        count - 1
    } else {
        0
    }
}

/// The offset after scrolling down `n` lines against `count` lines.
pub open spec fn scrolled_down(offset: int, n: int, count: int) -> int {
    if offset + n < count {
        offset + n
    } else {
        last_offset(count)
    }
}

/// The offset after scrolling up `n` lines.
pub open spec fn scrolled_up(offset: int, n: int) -> int {
    if offset > n {
        offset - n
    } else {
        0
    }
}

fn ends_with(v: &Vec<char>, suffix: &str) -> (r: bool)
    ensures
        r == has_suffix(v@, suffix@),
{
    let suf = chars_of(suffix);
    if suf.len() > v.len() {
        return false;
    }
    let base = v.len() - suf.len();
    let mut i: usize = 0;
    while i < suf.len()
        invariant
            i <= suf.len(),
            base + suf.len() == v.len(),
            suf@ == suffix@,
            forall|k: int| 0 <= k < i ==> v@[base + k] == suf@[k],
        decreases suf.len() - i,
    {
        if v[base + i] != suf[i] {
            assert(v@.subrange(base as int, v.len() as int)[i as int] != suf@[i as int]);
            return false;
        }
        i += 1;
    }
    assert(v@.subrange(base as int, v.len() as int) =~= suf@);
    true
}

/// Whether a path names a markdown document, by its extension.
pub fn is_markdown_path(path: &str) -> (r: bool)
    ensures
        r == markdown_path(path@),
{
    let v = chars_of(path);
    proof {
        reveal_strlit(".md");
        reveal_strlit(".markdown");
        assert(".md"@ =~= seq!['.', 'm', 'd']);
        assert(".markdown"@ =~= seq!['.', 'm', 'a', 'r', 'k', 'd', 'o', 'w', 'n']);
    }
    ends_with(&v, ".md") || ends_with(&v, ".markdown")
}

/// The line count that bounds scrolling in `mode`: the rendered stream's, the
/// source's, or the longer of the two side by side.
pub fn active_line_count(mode: ViewMode, rendered_len: usize, source_len: usize) -> (r: usize)
    ensures
        r == active_count(mode, rendered_len as nat, source_len as nat),
{
    match mode {
        ViewMode::Rendered => rendered_len,
        ViewMode::Source => source_len,
        ViewMode::SideBySide => if rendered_len > source_len {
            rendered_len
        } else {
            source_len
        },
    }
}

/// The number of lines of a window of `height` lines from `start` onto `len`
/// lines.
pub open spec fn window_len(len: int, start: int, height: int) -> int {
    if start < len {
        if height < len - start {
            height
        } else {
            len - start
        }
    } else {
        0
    }
}

/// The segments of each line in the window of `height` lines from `start`.
pub open spec fn window_tokens(lines: Seq<Seq<char>>, start: int, height: int, styled: bool) -> Seq<
    Seq<(Seq<char>, Style)>,
> {
    Seq::new(
        window_len(lines.len() as int, start, height) as nat,
        |k: int| line_tokens(lines[start + k], styled),
    )
}

pub open spec fn window_view(v: Seq<Vec<StyledSegment>>) -> Seq<Seq<(Seq<char>, Style)>> {
    v.map_values(|l: Vec<StyledSegment>| segments_view(l@))
}

/// Segments each line of `lines[start..start + height]` that exists.
pub fn visible_window(lines: &Vec<String>, start: usize, height: usize, styled: bool) -> (r: Vec<
    Vec<StyledSegment>,
>)
    ensures
        window_view(r@) == window_tokens(lines_view(lines@), start as int, height as int, styled),
{
    let mut out: Vec<Vec<StyledSegment>> = Vec::new();
    if start >= lines.len() {
        assert(window_view(out@) =~= window_tokens(
            lines_view(lines@),
            start as int,
            height as int,
            styled,
        ));
        return out;
    }
    let end = if height < lines.len() - start {
        start + height
    } else {
        lines.len()
    };
    let mut i: usize = start;
    while i < end
        invariant
            start <= i <= end <= lines.len(),
            end == start + window_len(lines.len() as int, start as int, height as int),
            out@.len() == i - start,
            forall|k: int|
                0 <= k < out@.len() ==> segments_view(#[trigger] out@[k]@) == line_tokens(
                    lines@[start + k]@,
                    styled,
                ),
        decreases end - i,
    {
        let segs = tokenize_line(lines[i].as_str(), styled);
        out.push(segs);
        i += 1;
    }
    assert(window_view(out@) =~= window_tokens(
        lines_view(lines@),
        start as int,
        height as int,
        styled,
    ));
    out
}

/// A loaded document and the state of its view.
pub struct AppState {
    pub content: String,
    pub rendered_content: String,
    pub view_mode: ViewMode,
    pub scroll_offset: usize,
    pub file_path: String,
    pub is_markdown: bool,
}

impl AppState {
    /// A plain document shows its source only, and its rendered text is the
    /// source.
    pub open spec fn wf(&self) -> bool {
        !self.is_markdown ==> self.view_mode == ViewMode::Source && self.rendered_content@
            == self.content@
    }

    /// The line count that bounds scrolling in the current mode.
    pub open spec fn active_len(&self) -> nat {
        active_count(
            self.view_mode,
            text_lines(self.rendered_content@).len(),
            text_lines(self.content@).len(),
        )
    }

    /// The state of a document at `file_path` whose text is `content`: a
    /// markdown document opens rendered, any other in its source view.
    pub fn new(file_path: String, content: String) -> (r: AppState)
        ensures
            r.wf(),
            r.is_markdown == markdown_path(file_path@),
            r.content@ == content@,
            r.file_path@ == file_path@,
            r.scroll_offset == 0,
            r.view_mode == (if r.is_markdown {
                ViewMode::Rendered
            } else {
                ViewMode::Source
            }),
            r.is_markdown ==> no_blank_run(r.rendered_content@) && r.rendered_content@ == trim(
                r.rendered_content@,
            ) && r.rendered_content@ == normalized(md_events_of(content@)),
    {
        let is_markdown = is_markdown_path(file_path.as_str());
        let rendered_content = if is_markdown {
            Self::render_markdown(content.as_str())
        } else {
            content.clone()
        };
        AppState {
            content,
            rendered_content,
            view_mode: if is_markdown {
                ViewMode::Rendered
            } else {
                ViewMode::Source
            },
            scroll_offset: 0,
            file_path,
            is_markdown,
        }
    }

    /// The rendered text of a markdown source: the normalized text of its
    /// event stream, so at most one blank line in a row and no surrounding
    /// whitespace.
    pub fn render_markdown(content: &str) -> (r: String)
        ensures
            r@ == normalized(md_events_of(content@)),
            no_blank_run(r@),
            r@ == trim(r@),
    {
        render_markdown_text(content)
    }

    /// Advances a markdown document to its next mode and returns to the top;
    /// a plain document stays as it is.
    pub fn toggle_view_mode(&mut self)
        ensures
            !old(self).is_markdown ==> *final(self) == *old(self),
            old(self).is_markdown ==> final(self).view_mode == next_mode(old(self).view_mode)
                && final(self).scroll_offset == 0,
            final(self).content == old(self).content,
            final(self).rendered_content == old(self).rendered_content,
            final(self).file_path == old(self).file_path,
            final(self).is_markdown == old(self).is_markdown,
            old(self).wf() ==> final(self).wf(),
    {
        if !self.is_markdown {
            return;
        }
        self.view_mode = match self.view_mode {
            ViewMode::Rendered => ViewMode::Source,
            ViewMode::Source => ViewMode::SideBySide,
            ViewMode::SideBySide => ViewMode::Rendered,
        };
        self.scroll_offset = 0;
    }

    /// Moves the window up `lines` lines, stopping at the top.
    pub fn scroll_up(&mut self, lines: usize)
        ensures
            final(self).scroll_offset == scrolled_up(old(self).scroll_offset as int, lines as int),
            final(self).view_mode == old(self).view_mode,
            final(self).content == old(self).content,
            final(self).rendered_content == old(self).rendered_content,
            final(self).file_path == old(self).file_path,
            final(self).is_markdown == old(self).is_markdown,
    {
        if self.scroll_offset > lines {
            self.scroll_offset -= lines;
        } else {
            self.scroll_offset = 0;
        }
    }

    /// Moves the window down `lines` lines against `max_lines` lines, stopping
    /// at the last line.
    pub fn scroll_down(&mut self, lines: usize, max_lines: usize)
        ensures
            final(self).scroll_offset == scrolled_down(
                old(self).scroll_offset as int,
                lines as int,
                max_lines as int,
            ),
            max_lines >= 1 ==> final(self).scroll_offset < max_lines,
            final(self).view_mode == old(self).view_mode,
            final(self).content == old(self).content,
            final(self).rendered_content == old(self).rendered_content,
            final(self).file_path == old(self).file_path,
            final(self).is_markdown == old(self).is_markdown,
    {
        if lines < max_lines && self.scroll_offset < max_lines - lines {
            self.scroll_offset += lines;
        } else {
            self.scroll_offset = if max_lines > 0 {
                max_lines - 1
            } else {
                0
            };
        }
    }

    /// The lines of the current mode: rendered, source, or side by side the
    /// longer of the two.
    pub fn get_content_lines(&self) -> (r: Vec<String>)
        ensures
            lines_view(r@) == (match self.view_mode {
                ViewMode::Rendered => text_lines(self.rendered_content@),
                ViewMode::Source => text_lines(self.content@),
                ViewMode::SideBySide => if text_lines(self.rendered_content@).len() > text_lines(
                    self.content@,
                ).len() {
                    text_lines(self.rendered_content@)
                } else {
                    text_lines(self.content@)
                },
            }),
            r@.len() == self.active_len(),
    {
        match self.view_mode {
            ViewMode::Rendered => lines_of(self.rendered_content.as_str()),
            ViewMode::Source => lines_of(self.content.as_str()),
            ViewMode::SideBySide => {
                let rendered_lines = lines_of(self.rendered_content.as_str());
                let source_lines = lines_of(self.content.as_str());
                if rendered_lines.len() > source_lines.len() {
                    rendered_lines
                } else {
                    source_lines
                }
            },
        }
    }

    /// The line count that bounds scrolling in the current mode.
    pub fn line_count(&self) -> (r: usize)
        ensures
            r == self.active_len(),
    {
        self.get_content_lines().len()
    }

    /// Returns to the first line.
    pub fn jump_home(&mut self)
        ensures
            *final(self) == (AppState { scroll_offset: 0, ..*old(self) }),
    {
        self.scroll_offset = 0;
    }

    /// Goes to the last line of the current mode (the first, when there are
    /// none).
    pub fn jump_end(&mut self)
        ensures
            final(self).scroll_offset == last_offset(old(self).active_len() as int),
            final(self).view_mode == old(self).view_mode,
            final(self).content == old(self).content,
            final(self).rendered_content == old(self).rendered_content,
            final(self).file_path == old(self).file_path,
            final(self).is_markdown == old(self).is_markdown,
    {
        let count = self.line_count();
        self.scroll_offset = if count > 0 {
            count - 1
        } else {
            0
        };
    }

    /// The lines of the current mode, each split into styled segments, from
    /// the scroll offset on and at most `height` of them; only the rendered
    /// view is styled.
    pub fn single_view(&self, height: usize) -> (r: Vec<Vec<StyledSegment>>)
        ensures
            window_view(r@) == window_tokens(
                self.active_lines(),
                self.scroll_offset as int,
                height as int,
                self.view_mode == ViewMode::Rendered,
            ),
    {
        let lines = self.get_content_lines();
        visible_window(&lines, self.scroll_offset, height, self.view_mode == ViewMode::Rendered)
    }

    /// The two panes side by side from the shared scroll offset: the rendered
    /// lines styled on the left, the source lines plain on the right.
    pub fn side_by_side(&self, height: usize) -> (r: (Vec<Vec<StyledSegment>>, Vec<Vec<StyledSegment>>))
        ensures
            window_view(r.0@) == window_tokens(
                text_lines(self.rendered_content@),
                self.scroll_offset as int,
                height as int,
                true,
            ),
            window_view(r.1@) == window_tokens(
                text_lines(self.content@),
                self.scroll_offset as int,
                height as int,
                false,
            ),
    {
        let rendered_lines = lines_of(self.rendered_content.as_str());
        let source_lines = lines_of(self.content.as_str());
        let left = visible_window(&rendered_lines, self.scroll_offset, height, true);
        let right = visible_window(&source_lines, self.scroll_offset, height, false);
        (left, right)
    }

    /// The lines of the current mode.
    pub open spec fn active_lines(&self) -> Seq<Seq<char>> {
        match self.view_mode {
            ViewMode::Rendered => text_lines(self.rendered_content@),
            ViewMode::Source => text_lines(self.content@),
            ViewMode::SideBySide => if text_lines(self.rendered_content@).len() > text_lines(
                self.content@,
            ).len() {
                text_lines(self.rendered_content@)
            } else {
                text_lines(self.content@)
            },
        }
    }

    /// The mode after `a`.
    pub open spec fn mode_after(&self, a: Action) -> ViewMode {
        if a == Action::Advance && self.is_markdown {
            next_mode(self.view_mode)
        } else {
            self.view_mode
        }
    }

    /// The scroll offset after `a`.
    pub open spec fn offset_after(&self, a: Action) -> int {
        let o = self.scroll_offset as int;
        let n = self.active_len() as int;
        match a {
            Action::Advance => if self.is_markdown {
                0
            } else {
                o
            },
            Action::LineUp => scrolled_up(o, 1),
            Action::LineDown => scrolled_down(o, 1, n),
            Action::PageUp => scrolled_up(o, PAGE as int),
            Action::PageDown => scrolled_down(o, PAGE as int, n),
            Action::Home => 0,
            Action::End => last_offset(n),
            _ => o,
        }
    }

    /// Applies one input action and says what the event loop does next.
    pub fn apply(&mut self, a: Action) -> (r: Outcome)
        ensures
            final(self).view_mode == old(self).mode_after(a),
            final(self).scroll_offset == old(self).offset_after(a),
            final(self).content == old(self).content,
            final(self).rendered_content == old(self).rendered_content,
            final(self).file_path == old(self).file_path,
            final(self).is_markdown == old(self).is_markdown,
            old(self).wf() ==> final(self).wf(),
            r == (match a {
                Action::Quit => Outcome::Quit,
                Action::Help => Outcome::ShowHelp,
                _ => Outcome::Continue,
            }),
    {
        match a {
            Action::Advance => self.toggle_view_mode(),
            Action::LineUp => self.scroll_up(1),
            Action::LineDown => {
                let count = self.line_count();
                self.scroll_down(1, count);
            },
            Action::PageUp => self.scroll_up(PAGE),
            Action::PageDown => {
                let count = self.line_count();
                self.scroll_down(PAGE, count);
            },
            Action::Home => self.jump_home(),
            Action::End => self.jump_end(),
            Action::Quit => {
                return Outcome::Quit;
            },
            Action::Help => {
                return Outcome::ShowHelp;
            },
            Action::Ignore => {},
        }
        Outcome::Continue
    }
}

/// Three advance actions bring a markdown document back to the mode it started
/// in, each passing through a different mode, and each one returns the window
/// to the top.
pub proof fn lemma_advance_cycle(s: AppState)
    requires
        s.is_markdown,
    ensures
        next_mode(next_mode(next_mode(s.view_mode))) == s.view_mode,
        next_mode(s.view_mode) != s.view_mode,
        next_mode(next_mode(s.view_mode)) != s.view_mode,
        next_mode(next_mode(s.view_mode)) != next_mode(s.view_mode),
        s.offset_after(Action::Advance) == 0,
        s.mode_after(Action::Advance) == next_mode(s.view_mode),
{
}

/// An action never moves a plain document out of its source view.
pub proof fn lemma_plain_stays_source(s: AppState, a: Action)
    requires
        s.wf(),
        !s.is_markdown,
    ensures
        s.mode_after(a) == ViewMode::Source,
{
}

/// Scrolling down against at least one line stays within the lines, and
/// scrolling up never goes above the top.
pub proof fn lemma_scroll_saturates(offset: int, n: int, count: int)
    requires
        offset >= 0,
        n >= 0,
        count >= 1,
    ensures
        0 <= scrolled_down(offset, n, count) < count,
        scrolled_up(offset, n) >= 0,
{
}

} // verus!
