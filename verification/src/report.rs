use crate::matcher::spans_in_order;
use crate::matcher::spans_view;
use crate::text::concat;
use crate::text::lemma_parts_join;
use crate::text::slice_str;
use vstd::prelude::*;
use vstd::string::StringExecFns;
use vstd::string::StringSliceAdditionalSpecFns;
use vstd::utf8::*;

verus! {

/// How a piece of a line is to be shown.
#[derive(Clone, Copy, Debug, PartialEq, Eq, Structural)]
pub enum Style {
    /// Text as it is.
    Plain,
    /// The name of an archive, with or without a chapter.
    Label,
    /// A match, or the number of matches.
    Match,
    /// The marker of an error.
    Error,
}

/// A piece of a line in one style.
#[derive(Debug, PartialEq, Eq)]
pub struct Segment {
    pub text: String,
    pub style: Style,
}

/// What a [`Segment`] stands for in contracts.
pub struct SegmentView {
    pub text: Seq<char>,
    pub style: Style,
}

impl View for Segment {
    type V = SegmentView;

    open spec fn view(&self) -> SegmentView {
        SegmentView { text: self.text@, style: self.style }
    }
}

/// The views of the segments of a line, in order.
pub open spec fn line_view(line: Seq<Segment>) -> Seq<SegmentView> {
    line.map_values(|s: Segment| s@)
}

/// The views of a list of lines, in order.
pub open spec fn lines_view(lines: Seq<Vec<Segment>>) -> Seq<Seq<SegmentView>> {
    lines.map_values(|line: Vec<Segment>| line_view(line@))
}

/// The text that the bytes from `from` up to `to` encode.
pub open spec fn piece(bytes: Seq<u8>, from: int, to: int) -> Seq<char> {
    decode_utf8(bytes.subrange(from, to))
}

/// Where the span before the `i`-th one ends; the start of the text for
/// the first span.
pub open spec fn previous_end(spans: Seq<(int, int)>, i: int) -> int {
    if i <= 0 {
        0
    } else {
        spans[i - 1].1
    }
}

/// A text cut at its matches. Each match gives two segments: the plain
/// text since the match before it, and the match itself. One more plain
/// segment holds the text after the last match.
pub open spec fn highlighted(text: Seq<char>, spans: Seq<(int, int)>) -> Seq<SegmentView> {
    let bytes = encode_utf8(text);
    Seq::new(
        2 * spans.len() + 1,
        |k: int|
            if k == 2 * spans.len() {
                SegmentView {
                    text: piece(bytes, previous_end(spans, spans.len() as int), bytes.len() as int),
                    style: Style::Plain,
                }
            } else if k % 2 == 0 {
                SegmentView {
                    text: piece(bytes, previous_end(spans, k / 2), spans[k / 2].0),
                    style: Style::Plain,
                }
            } else {
                SegmentView {
                    text: piece(bytes, spans[k / 2].0, spans[k / 2].1),
                    style: Style::Match,
                }
            },
    )
}

/// The text of a line: the texts of its segments, joined.
pub open spec fn line_text(line: Seq<SegmentView>) -> Seq<char>
    decreases line.len(),
{
    if line.len() == 0 {
        seq![]
    } else {
        line_text(line.drop_last()) + line.last().text
    }
}

/// The segments up to the `k`-th match hold the text up to the end of the
/// match before it.
proof fn lemma_highlighted_prefix(text: Seq<char>, spans: Seq<(int, int)>, k: int)
    requires
        spans_in_order(spans, encode_utf8(text)),
        0 <= k <= spans.len(),
    ensures
        line_text(highlighted(text, spans).take(2 * k)) == piece(
            encode_utf8(text),
            0,
            previous_end(spans, k),
        ),
        0 <= previous_end(spans, k) <= encode_utf8(text).len(),
        is_char_boundary(encode_utf8(text), previous_end(spans, k)),
    decreases k,
{
    let bytes = encode_utf8(text);
    let whole = highlighted(text, spans);
    encode_utf8_valid_utf8(text);
    is_char_boundary_start_end_of_seq(bytes);
    if k == 0 {
        assert(whole.take(0) =~= Seq::<SegmentView>::empty());
        assert(bytes.subrange(0, 0) =~= Seq::<u8>::empty());
        assert(line_text(whole.take(0)) =~= Seq::<char>::empty());
        assert(decode_utf8(Seq::<u8>::empty()) =~= Seq::<char>::empty());
    } else {
        lemma_highlighted_prefix(text, spans, k - 1);
        let before = previous_end(spans, k - 1);
        let (start, end) = spans[k - 1];
        if k > 1 {
            assert(spans[k - 2].1 <= spans[k - 1].0);
        }
        let upto = whole.take(2 * k);
        let plain = whole.take(2 * k - 1);
        assert(upto.drop_last() =~= plain);
        assert(plain.drop_last() =~= whole.take(2 * (k - 1)));
        assert(upto.last() == whole[2 * k - 1]);
        assert(plain.last() == whole[2 * k - 2]);
        assert((2 * k - 1) / 2 == k - 1 && (2 * k - 1) % 2 == 1);
        assert((2 * k - 2) / 2 == k - 1 && (2 * k - 2) % 2 == 0);
        lemma_parts_join(bytes, 0, before, start);
        lemma_parts_join(bytes, 0, start, end);
        assert(plain.last().text == piece(bytes, before, start));
        assert(upto.last().text == piece(bytes, start, end));
        assert(line_text(plain) == line_text(whole.take(2 * (k - 1))) + piece(bytes, before, start));
        assert(line_text(upto) == line_text(plain) + piece(bytes, start, end));
        assert(previous_end(spans, k) == end);
    }
}

/// Cutting a text at its matches keeps the text: the segments, joined in
/// their order, are the text, whatever the matches.
pub proof fn lemma_highlighting_keeps_the_text(text: Seq<char>, spans: Seq<(int, int)>)
    requires
        spans_in_order(spans, encode_utf8(text)),
    ensures
        line_text(highlighted(text, spans)) == text,
{
    let bytes = encode_utf8(text);
    let whole = highlighted(text, spans);
    let n = spans.len() as int;
    encode_utf8_valid_utf8(text);
    encode_utf8_decode_utf8(text);
    is_char_boundary_start_end_of_seq(bytes);
    lemma_highlighted_prefix(text, spans, n);
    assert(whole.drop_last() =~= whole.take(2 * n));
    lemma_parts_join(bytes, 0, previous_end(spans, n), bytes.len() as int);
    assert(bytes.subrange(0, bytes.len() as int) =~= bytes);
}

/// Makes a segment of a piece of text.
pub fn segment(text: &str, style: Style) -> (r: Segment)
    ensures
        r@ == (SegmentView { text: text@, style }),
{
    Segment { text: String::from_str(text), style }
}

/// Cuts a paragraph at its matches, so that each match can be shown in
/// its own style and the text around it plain.
pub fn paragraph_segments(paragraph: &str, spans: &Vec<(usize, usize)>) -> (r: Vec<Segment>)
    requires
        spans_in_order(spans_view(spans@), encode_utf8(paragraph@)),
    ensures
        line_view(r@) == highlighted(paragraph@, spans_view(spans@)),
{
    let ghost bytes = encode_utf8(paragraph@);
    let ghost marks = spans_view(spans@);
    let ghost whole = highlighted(paragraph@, marks);
    let mut segments: Vec<Segment> = Vec::new();
    let mut previous: usize = 0;
    let mut i: usize = 0;
    proof {
        encode_utf8_valid_utf8(paragraph@);
        is_char_boundary_start_end_of_seq(bytes);
    }
    while i < spans.len()
        invariant
            i <= spans.len(),
            bytes == encode_utf8(paragraph@),
            bytes == paragraph.spec_bytes(),
            valid_utf8(bytes),
            marks == spans_view(spans@),
            whole == highlighted(paragraph@, marks),
            spans_in_order(marks, bytes),
            previous == previous_end(marks, i as int),
            previous <= bytes.len(),
            is_char_boundary(bytes, previous as int),
            segments.len() == 2 * i,
            forall|k: int| 0 <= k < 2 * i ==> (#[trigger] segments[k])@ == whole[k],
        decreases spans.len() - i,
    {
        let (start, end) = spans[i];
        proof {
            assert(marks[i as int] == (start as int, end as int));
            if i > 0 {
                assert(marks[i - 1].1 <= marks[i as int].0);
            }
        }
        let plain = segment(slice_str(paragraph, previous, start), Style::Plain);
        let found = segment(slice_str(paragraph, start, end), Style::Match);
        proof {
            assert(plain@ == whole[2 * i]);
            assert(found@ == whole[2 * i + 1]);
        }
        segments.push(plain);
        segments.push(found);
        previous = end;
        i += 1;
    }
    let length = paragraph.as_bytes().len();
    let rest = segment(slice_str(paragraph, previous, length), Style::Plain);
    proof {
        assert(rest@ == whole[2 * spans.len()]);
    }
    segments.push(rest);
    proof {
        assert(line_view(segments@) =~= whole);
    }
    segments
}

/// The character of a decimal digit.
pub open spec fn digit(d: int) -> char {
    if d == 0 {
        '0'
    } else if d == 1 {
        '1'
    } else if d == 2 {
        '2'
    } else if d == 3 {
        '3'
    } else if d == 4 {
        '4'
    } else if d == 5 {
        '5'
    } else if d == 6 {
        '6'
    } else if d == 7 {
        '7'
    } else if d == 8 {
        '8'
    } else {
        '9'
    }
}

/// A number written in decimal digits, without leading zeros.
pub open spec fn decimal(n: nat) -> Seq<char>
    decreases n,
{
    if n < 10 {
        seq![digit(n as int)]
    } else {
        decimal(n / 10).push(digit((n % 10) as int))
    }
}

/// The text of one decimal digit.
pub(crate) fn digit_str(d: usize) -> (r: &'static str)
    requires
        d < 10,
    ensures
        r@ == seq![digit(d as int)],
{
    proof {
        reveal_strlit("0");
        reveal_strlit("1");
        reveal_strlit("2");
        reveal_strlit("3");
        reveal_strlit("4");
        reveal_strlit("5");
        reveal_strlit("6");
        reveal_strlit("7");
        reveal_strlit("8");
        reveal_strlit("9");
    }
    let r = if d == 0 {
        "0"
    } else if d == 1 {
        "1"
    } else if d == 2 {
        "2"
    } else if d == 3 {
        "3"
    } else if d == 4 {
        "4"
    } else if d == 5 {
        "5"
    } else if d == 6 {
        "6"
    } else if d == 7 {
        "7"
    } else if d == 8 {
        "8"
    } else {
        "9"
    };
    assert(r@ =~= seq![digit(d as int)]);
    r
}

/// Writes a number in decimal digits.
pub fn decimal_string(n: usize) -> (r: String)
    ensures
        r@ == decimal(n as nat),
    decreases n,
{
    if n < 10 {
        String::from_str(digit_str(n))
    } else {
        let mut r = decimal_string(n / 10);
        r.append(digit_str(n % 10));
        assert(r@ =~= decimal((n / 10) as nat).push(digit((n % 10) as int)));
        r
    }
}

/// What stands before a matching paragraph: the archive and the chapter.
pub open spec fn heading(file_name: Seq<char>, chapter: Seq<char>) -> Seq<char> {
    file_name + "("@ + chapter + ")"@
}

/// The line that shows a matching paragraph: the heading as a label, a
/// colon and a space, and the paragraph cut at its matches.
pub open spec fn match_line(
    file_name: Seq<char>,
    chapter: Seq<char>,
    paragraph: Seq<char>,
    spans: Seq<(int, int)>,
) -> Seq<SegmentView> {
    seq![
        SegmentView { text: heading(file_name, chapter), style: Style::Label },
        SegmentView { text: ": "@, style: Style::Plain },
    ] + highlighted(paragraph, spans)
}

/// The line that sums an archive up: its name as a label, a colon and a
/// space, and the number of its matches.
pub open spec fn count_line(file_name: Seq<char>, count: nat) -> Seq<SegmentView> {
    seq![
        SegmentView { text: file_name, style: Style::Label },
        SegmentView { text: ": "@, style: Style::Plain },
        SegmentView { text: decimal(count), style: Style::Match },
    ]
}

/// The line that reports an error: the marker, then a colon, a space and
/// the message.
pub open spec fn error_line(message: Seq<char>) -> Seq<SegmentView> {
    seq![
        SegmentView { text: "Error"@, style: Style::Error },
        SegmentView { text: ": "@ + message, style: Style::Plain },
    ]
}

/// Builds the line that shows a matching paragraph.
pub fn print_paragraph(
    file_name: &str,
    chapter: &str,
    paragraph: &str,
    spans: &Vec<(usize, usize)>,
) -> (r: Vec<Segment>)
    requires
        spans_in_order(spans_view(spans@), encode_utf8(paragraph@)),
    ensures
        line_view(r@) == match_line(file_name@, chapter@, paragraph@, spans_view(spans@)),
{
    let opened = concat(file_name, "(");
    let named = concat(opened.as_str(), chapter);
    let head = concat(named.as_str(), ")");
    let mut line: Vec<Segment> = Vec::new();
    line.push(segment(head.as_str(), Style::Label));
    line.push(segment(": ", Style::Plain));
    let ghost front = line_view(line@);
    let mut pieces = paragraph_segments(paragraph, spans);
    let ghost back = line_view(pieces@);
    line.append(&mut pieces);
    proof {
        assert(front =~= seq![
            SegmentView { text: heading(file_name@, chapter@), style: Style::Label },
            SegmentView { text: ": "@, style: Style::Plain },
        ]);
        assert(line_view(line@) =~= front + back);
    }
    line
}

/// Builds the line that sums an archive up.
pub fn print_count(file_name: &str, count: usize) -> (r: Vec<Segment>)
    ensures
        line_view(r@) == count_line(file_name@, count as nat),
{
    let number = decimal_string(count);
    let mut line: Vec<Segment> = Vec::new();
    line.push(segment(file_name, Style::Label));
    line.push(segment(": ", Style::Plain));
    line.push(segment(number.as_str(), Style::Match));
    assert(line_view(line@) =~= count_line(file_name@, count as nat));
    line
}

/// Builds the line that reports an error.
pub fn print_error(message: &str) -> (r: Vec<Segment>)
    ensures
        line_view(r@) == error_line(message@),
{
    let rest = concat(": ", message);
    let mut line: Vec<Segment> = Vec::new();
    line.push(segment("Error", Style::Error));
    line.push(segment(rest.as_str(), Style::Plain));
    assert(line_view(line@) =~= error_line(message@));
    line
}

} // verus!
