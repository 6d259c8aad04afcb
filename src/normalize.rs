//! The block normalizer: folds the markdown event stream into one flat text
//! with inline style markers, then collapses runs of blank lines and trims.

use crate::cmark::{block_of, event_parts, Block, EventParts};
use pulldown_cmark::Event;
use vstd::prelude::*;

verus! {

/// One markdown event, as the normalizer reads it.
#[derive(Clone, Debug)]
pub enum MdEvent {
    Start(Block),
    End(Block),
    Text(String),
    Code(String),
    Rule,
    SoftBreak,
    HardBreak,
    Other,
}

pub open spec fn hashes(level: u8) -> Seq<char> {
    Seq::new(level as nat, |_i: int| '#')
}

pub open spec fn ends_with_newline(s: Seq<char>) -> bool {
    s.len() > 0 && s.last() == '\n'
}

/// What one event appends to the text built so far.
pub open spec fn emit(acc: Seq<char>, e: MdEvent) -> Seq<char> {
    match e {
        MdEvent::Start(b) => match b {
            Block::Heading(l) => acc.push('\n') + hashes(l) + seq![' '],
            Block::Paragraph => if ends_with_newline(acc) {
                acc
            } else {
                acc.push('\n')
            },
            Block::CodeBlock => acc + seq!['\n', '`', '`', '`', '\n'],
            Block::List => acc.push('\n'),
            Block::Item => acc + seq!['•', ' '],
            Block::BlockQuote => acc + seq!['\n', '>', ' '],
            Block::Strong => acc + seq!['*', '*'],
            Block::Emphasis => acc.push('*'),
            Block::Other => acc,
        },
        MdEvent::End(b) => match b {
            Block::CodeBlock => acc + seq!['\n', '`', '`', '`', '\n'],
            Block::Strong => acc + seq!['*', '*'],
            Block::Emphasis => acc.push('*'),
            Block::Item => acc.push('\n'),
            Block::Other => acc,
            _ => acc.push('\n'),
        },
        MdEvent::Text(t) => acc + t@,
        MdEvent::Code(t) => acc.push('`') + t@ + seq!['`'],
        MdEvent::Rule => acc + seq!['\n', '-', '-', '-', '\n'],
        MdEvent::SoftBreak => acc.push('\n'),
        MdEvent::HardBreak => acc.push('\n'),
        MdEvent::Other => acc,
    }
}

/// The text that the events produce before the spacing pass.
pub open spec fn fold_events(es: Seq<MdEvent>) -> Seq<char>
    decreases es.len(),
{
    if es.len() == 0 {
        seq![]
    } else {
        emit(fold_events(es.drop_last()), es.last())
    }
}

pub open spec fn ends_with_blank(s: Seq<char>) -> bool {
    s.len() >= 2 && s[s.len() - 1] == '\n' && s[s.len() - 2] == '\n'
}

/// Every run of three or more line breaks reduced to exactly two.
pub open spec fn collapse(s: Seq<char>) -> Seq<char>
    decreases s.len(),
{
    if s.len() == 0 {
        s
    } else {
        let r = collapse(s.drop_last());
        if s.last() == '\n' && ends_with_blank(r) {
            r
        } else {
            r.push(s.last())
        }
    }
}

/// No three line breaks in a row: at most one blank line between blocks.
pub open spec fn no_blank_run(s: Seq<char>) -> bool {
    forall|i: int|
        0 <= i && i + 2 < s.len() ==> !(#[trigger] s[i] == '\n' && s[i + 1] == '\n' && s[i + 2]
            == '\n')
}

/// Unicode's White_Space property.
pub open spec fn is_white(c: char) -> bool {
    let u = c as u32;
    (0x9 <= u <= 0xd) || u == 0x20 || u == 0x85 || u == 0xa0 || u == 0x1680 || (0x2000 <= u
        <= 0x200a) || u == 0x2028 || u == 0x2029 || u == 0x202f || u == 0x205f || u == 0x3000
}

pub open spec fn trim_start(s: Seq<char>) -> Seq<char>
    decreases s.len(),
{
    if s.len() > 0 && is_white(s[0]) {
        trim_start(s.drop_first())
    } else {
        s
    }
}

pub open spec fn trim_end(s: Seq<char>) -> Seq<char>
    decreases s.len(),
{
    if s.len() > 0 && is_white(s.last()) {
        trim_end(s.drop_last())
    } else {
        s
    }
}

pub open spec fn trim(s: Seq<char>) -> Seq<char> {
    trim_start(trim_end(s))
}

/// The normalized text of an event stream.
pub open spec fn normalized(es: Seq<MdEvent>) -> Seq<char> {
    trim(collapse(fold_events(es)))
}

/// Whether a character has Unicode's White_Space property.
fn is_white_exec(c: char) -> (r: bool)
    ensures
        r == is_white(c),
{
    let u = c as u32;
    (0x9 <= u && u <= 0xd) || u == 0x20 || u == 0x85 || u == 0xa0 || u == 0x1680 || (0x2000 <= u
        && u <= 0x200a) || u == 0x2028 || u == 0x2029 || u == 0x202f || u == 0x205f || u == 0x3000
}

/// The bounds of `v` without its leading and trailing white space.
fn trim_bounds(v: &Vec<char>) -> (r: (usize, usize))
    ensures
        r.0 <= r.1 <= v.len(),
        v@.subrange(r.0 as int, r.1 as int) == trim(v@),
{
    let mut j: usize = v.len();
    assert(v@.subrange(0, j as int) =~= v@);
    while j > 0 && is_white_exec(v[j - 1])
        invariant
            j <= v.len(),
            trim_end(v@.subrange(0, j as int)) == trim_end(v@),
        decreases j,
    {
        assert(v@.subrange(0, j as int).drop_last() =~= v@.subrange(0, j - 1));
        j -= 1;
    }
    let ghost e = v@.subrange(0, j as int);
    assert(trim_end(e) == e);
    let mut i: usize = 0;
    while i < j && is_white_exec(v[i])
        invariant
            i <= j <= v.len(),
            e == v@.subrange(0, j as int),
            trim_start(v@.subrange(i as int, j as int)) == trim_start(e),
        decreases j - i,
    {
        assert(v@.subrange(i as int, j as int).drop_first() =~= v@.subrange(i + 1, j as int));
        i += 1;
    }
    (i, j)
}

fn push_chars(out: &mut Vec<char>, s: &str)
    ensures
        final(out)@ == old(out)@ + s@,
{
    let mut cs = crate::text::chars_of(s);
    out.append(&mut cs);
}

/// Appends what `e` emits to `out`.
fn emit_exec(out: &mut Vec<char>, e: &MdEvent)
    ensures
        final(out)@ == emit(old(out)@, *e),
{
    match e {
        MdEvent::Start(b) => match b {
            Block::Heading(l) => {
                out.push('\n');
                let mut k: u8 = 0;
                while k < *l
                    invariant
                        k <= *l,
                        out@ == old(out)@.push('\n') + hashes(k),
                    decreases *l - k,
                {
                    out.push('#');
                    k += 1;
                    assert(out@ =~= old(out)@.push('\n') + hashes(k));
                }
                out.push(' ');
                assert(out@ =~= emit(old(out)@, *e));
            },
            Block::Paragraph => {
                if !(out.len() > 0 && out[out.len() - 1] == '\n') {
                    out.push('\n');
                }
            },
            Block::CodeBlock => {
                push_chars(out, "\n```\n");
                proof { reveal_strlit("\n```\n"); }
                assert(out@ =~= emit(old(out)@, *e));
            },
            Block::List => out.push('\n'),
            Block::Item => {
                out.push('•');
                out.push(' ');
                assert(out@ =~= emit(old(out)@, *e));
            },
            Block::BlockQuote => {
                out.push('\n');
                out.push('>');
                out.push(' ');
                assert(out@ =~= emit(old(out)@, *e));
            },
            Block::Strong => {
                out.push('*');
                out.push('*');
                assert(out@ =~= emit(old(out)@, *e));
            },
            Block::Emphasis => out.push('*'),
            Block::Other => {},
        },
        MdEvent::End(b) => match b {
            Block::CodeBlock => {
                push_chars(out, "\n```\n");
                proof { reveal_strlit("\n```\n"); }
                assert(out@ =~= emit(old(out)@, *e));
            },
            Block::Strong => {
                out.push('*');
                out.push('*');
                assert(out@ =~= emit(old(out)@, *e));
            },
            Block::Emphasis => out.push('*'),
            Block::Other => {},
            _ => out.push('\n'),
        },
        MdEvent::Text(t) => push_chars(out, t.as_str()),
        MdEvent::Code(t) => {
            out.push('`');
            push_chars(out, t.as_str());
            out.push('`');
            assert(out@ =~= emit(old(out)@, *e));
        },
        MdEvent::Rule => {
            push_chars(out, "\n---\n");
            proof { reveal_strlit("\n---\n"); }
            assert(out@ =~= emit(old(out)@, *e));
        },
        MdEvent::SoftBreak => out.push('\n'),
        MdEvent::HardBreak => out.push('\n'),
        MdEvent::Other => {},
    }
}

/// The events' text before the spacing pass.
pub fn fold_exec(events: &Vec<MdEvent>) -> (r: Vec<char>)
    ensures
        r@ == fold_events(events@),
{
    let mut out: Vec<char> = Vec::new();
    let mut i: usize = 0;
    while i < events.len()
        invariant
            i <= events.len(),
            out@ == fold_events(events@.subrange(0, i as int)),
        decreases events.len() - i,
    {
        emit_exec(&mut out, &events[i]);
        assert(events@.subrange(0, i + 1).drop_last() =~= events@.subrange(0, i as int));
        i += 1;
    }
    assert(events@.subrange(0, i as int) =~= events@);
    out
}

/// The blank-line collapse pass: every run of three or more line breaks
/// becomes exactly two.
pub fn collapse_blank_lines(s: &Vec<char>) -> (r: Vec<char>)
    ensures
        r@ == collapse(s@),
{
    let mut out: Vec<char> = Vec::new();
    let mut i: usize = 0;
    while i < s.len()
        invariant
            i <= s.len(),
            out@ == collapse(s@.subrange(0, i as int)),
        decreases s.len() - i,
    {
        let c = s[i];
        let n = out.len();
        assert(s@.subrange(0, i + 1).drop_last() =~= s@.subrange(0, i as int));
        if !(c == '\n' && n >= 2 && out[n - 1] == '\n' && out[n - 2] == '\n') {
            out.push(c);
        }
        i += 1;
    }
    assert(s@.subrange(0, i as int) =~= s@);
    out
}

/// Flattens an event stream into the rendered text: the events' text, with
/// runs of blank lines collapsed to one and surrounding whitespace trimmed.
pub fn render_events(events: &Vec<MdEvent>) -> (r: String)
    ensures
        r@ == normalized(events@),
        no_blank_run(r@),
{
    let folded = fold_exec(events);
    let collapsed = collapse_blank_lines(&folded);
    proof {
        lemma_collapse_no_blank_run(folded@);
        lemma_trim_keeps_no_blank_run(collapsed@);
    }
    let (a, b) = trim_bounds(&collapsed);
    crate::text::string_of_range(&collapsed, a, b)
}

fn md_event(p: EventParts) -> MdEvent {
    match p {
        EventParts::Start(t) => MdEvent::Start(block_of(&t)),
        EventParts::End(t) => MdEvent::End(block_of(&t)),
        EventParts::Text(s) => MdEvent::Text(s),
        EventParts::Code(s) => MdEvent::Code(s),
        EventParts::Rule => MdEvent::Rule,
        EventParts::SoftBreak => MdEvent::SoftBreak,
        EventParts::HardBreak => MdEvent::HardBreak,
        EventParts::Other => MdEvent::Other,
    }
}

/// One parser event as the normalizer reads it.
fn md_event_of(e: &Event<'_>) -> MdEvent {
    md_event(event_parts(e))
}

/// The events that the markdown parser yields for a text, as the normalizer
/// reads them.
pub uninterp spec fn md_events_of(s: Seq<char>) -> Seq<MdEvent>;

/// Relies on pulldown_cmark::Parser::new and its Iterator impl: the event
/// stream of `content` in document order, which depends on the text alone.
#[verifier::external_body]
fn parse_markdown(content: &str) -> (r: Vec<MdEvent>)
    ensures
        r@ == md_events_of(content@),
{
    pulldown_cmark::Parser::new(content).map(|e| md_event_of(&e)).collect()
}

/// The markdown parser's events for `content`, in document order.
pub fn markdown_events(content: &str) -> (r: Vec<MdEvent>)
    ensures
        r@ == md_events_of(content@),
{
    parse_markdown(content)
}

/// Parses `content` as markdown and flattens it into the rendered text: the
/// normalized text of the parser's event stream.
pub fn render_markdown_text(content: &str) -> (r: String)
    ensures
        r@ == normalized(md_events_of(content@)),
        no_blank_run(r@),
        r@ == trim(r@),
{
    let events = markdown_events(content);
    let r = render_events(&events);
    proof { lemma_trim_idempotent(collapse(fold_events(events@))); }
    r
}

pub proof fn lemma_collapse_no_blank_run(s: Seq<char>)
    ensures
        no_blank_run(collapse(s)),
    decreases s.len(),
{
    if s.len() > 0 {
        lemma_collapse_no_blank_run(s.drop_last());
        let r = collapse(s.drop_last());
        let c = collapse(s);
        assert forall|i: int| 0 <= i && i + 2 < c.len() implies !(#[trigger] c[i] == '\n' && c[i
            + 1] == '\n' && c[i + 2] == '\n') by {
            if i + 2 < r.len() {
                assert(c[i] == r[i] && c[i + 1] == r[i + 1] && c[i + 2] == r[i + 2]);
            }
        }
    }
}

proof fn lemma_no_blank_run_prefix(s: Seq<char>, j: int)
    requires
        no_blank_run(s),
        0 <= j <= s.len(),
    ensures
        no_blank_run(s.subrange(0, j)),
{
    let t = s.subrange(0, j);
    assert forall|i: int| 0 <= i && i + 2 < t.len() implies !(#[trigger] t[i] == '\n' && t[i + 1]
        == '\n' && t[i + 2] == '\n') by {
        assert(t[i] == s[i] && t[i + 1] == s[i + 1] && t[i + 2] == s[i + 2]);
    }
}

proof fn lemma_no_blank_run_suffix(s: Seq<char>, j: int)
    requires
        no_blank_run(s),
        0 <= j <= s.len(),
    ensures
        no_blank_run(s.subrange(j, s.len() as int)),
{
    let t = s.subrange(j, s.len() as int);
    assert forall|i: int| 0 <= i && i + 2 < t.len() implies !(#[trigger] t[i] == '\n' && t[i + 1]
        == '\n' && t[i + 2] == '\n') by {
        assert(t[i] == s[i + j] && t[i + 1] == s[i + j + 1] && t[i + 2] == s[i + j + 2]);
    }
}

proof fn lemma_trim_end_prefix(s: Seq<char>)
    ensures
        exists|j: int| 0 <= j <= s.len() && trim_end(s) == s.subrange(0, j),
    decreases s.len(),
{
    if s.len() > 0 && is_white(s.last()) {
        lemma_trim_end_prefix(s.drop_last());
        let j = choose|j: int|
            0 <= j <= s.drop_last().len() && trim_end(s.drop_last()) == s.drop_last().subrange(
                0,
                j,
            );
        assert(s.drop_last().subrange(0, j) =~= s.subrange(0, j));
    } else {
        assert(s.subrange(0, s.len() as int) =~= s);
    }
}

proof fn lemma_trim_start_suffix(s: Seq<char>)
    ensures
        exists|j: int| 0 <= j <= s.len() && trim_start(s) == s.subrange(j, s.len() as int),
    decreases s.len(),
{
    if s.len() > 0 && is_white(s[0]) {
        lemma_trim_start_suffix(s.drop_first());
        let j = choose|j: int|
            0 <= j <= s.drop_first().len() && trim_start(s.drop_first())
                == s.drop_first().subrange(j, s.drop_first().len() as int);
        assert(s.drop_first().subrange(j, s.drop_first().len() as int) =~= s.subrange(
            j + 1,
            s.len() as int,
        ));
    } else {
        assert(s.subrange(0, s.len() as int) =~= s);
    }
}

proof fn lemma_trim_keeps_no_blank_run(s: Seq<char>)
    requires
        no_blank_run(s),
    ensures
        no_blank_run(trim(s)),
{
    lemma_trim_end_prefix(s);
    let j = choose|j: int| 0 <= j <= s.len() && trim_end(s) == s.subrange(0, j);
    lemma_no_blank_run_prefix(s, j);
    let t = trim_end(s);
    lemma_trim_start_suffix(t);
    let k = choose|k: int| 0 <= k <= t.len() && trim_start(t) == t.subrange(k, t.len() as int);
    lemma_no_blank_run_suffix(t, k);
}

proof fn lemma_trim_start_fixed(s: Seq<char>)
    ensures
        trim_start(trim_start(s)) == trim_start(s),
    decreases s.len(),
{
    if s.len() > 0 && is_white(s[0]) {
        lemma_trim_start_fixed(s.drop_first());
    }
}

proof fn lemma_trim_end_fixed(s: Seq<char>)
    ensures
        trim_end(trim_end(s)) == trim_end(s),
    decreases s.len(),
{
    if s.len() > 0 && is_white(s.last()) {
        lemma_trim_end_fixed(s.drop_last());
    }
}

proof fn lemma_trim_start_keeps_end(s: Seq<char>)
    requires
        trim_end(s) == s,
    ensures
        trim_end(trim_start(s)) == trim_start(s),
    decreases s.len(),
{
    if s.len() > 0 && is_white(s[0]) {
        let t = s.drop_first();
        if is_white(s.last()) {
            lemma_trim_end_prefix(s.drop_last());
        }
        if t.len() > 0 {
            assert(t.last() == s.last());
            assert(!is_white(t.last()));
        }
        lemma_trim_start_keeps_end(t);
    }
}

/// Trimming twice is trimming once.
pub proof fn lemma_trim_idempotent(s: Seq<char>)
    ensures
        trim(trim(s)) == trim(s),
{
    let e = trim_end(s);
    lemma_trim_end_fixed(s);
    lemma_trim_start_keeps_end(e);
    lemma_trim_start_fixed(e);
}

/// A text with at most one blank line in a row is left as it is by the
/// collapse pass.
pub proof fn lemma_collapse_fixed(s: Seq<char>)
    requires
        no_blank_run(s),
    ensures
        collapse(s) == s,
    decreases s.len(),
{
    if s.len() > 0 {
        let p = s.drop_last();
        lemma_no_blank_run_prefix(s, s.len() - 1);
        assert(p =~= s.subrange(0, s.len() - 1));
        lemma_collapse_fixed(p);
        if s.last() == '\n' && ends_with_blank(p) {
            assert(s[s.len() - 3] == '\n');
        }
        assert(p.push(s.last()) =~= s);
    }
}

/// Applying the collapse pass twice gives what applying it once gives.
pub proof fn lemma_collapse_idempotent(s: Seq<char>)
    ensures
        collapse(collapse(s)) == collapse(s),
{
    lemma_collapse_no_blank_run(s);
    lemma_collapse_fixed(collapse(s));
}

} // verus!
