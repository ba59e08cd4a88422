use crate::matcher::Matcher;
use crate::navigation::NavMap;
use crate::navigation::describe_from;
use crate::paragraph::XhtmlTextIterator;
use crate::paragraph::lemma_next_paragraph_advances;
use crate::paragraph::lemma_next_paragraph_skip;
use crate::paragraph::next_paragraph;
use crate::paragraph::paragraphs_from;
use crate::paragraph::place_behind;
use crate::report::Segment;
use crate::report::SegmentView;
use crate::report::count_line;
use crate::report::line_view;
use crate::report::lines_view;
use crate::report::match_line;
use crate::report::print_count;
use crate::report::print_paragraph;
use crate::event::document_events;
use vstd::prelude::*;

verus! {

/// How matches are reported.
#[derive(Clone, Copy, Debug, PartialEq, Eq, Structural)]
pub struct Options {
    /// Count the matches of each archive and show no paragraph.
    pub count: bool,
    /// Show nothing, and stop at the first match.
    pub quiet: bool,
}

/// What the search of some paragraphs gives.
pub struct ScanView {
    /// The lines to show, in order.
    pub lines: Seq<Seq<SegmentView>>,
    /// The number of matches that were counted.
    pub count: nat,
    /// Whether the whole run is to end here.
    pub stop: bool,
}

/// The search of paragraphs in their order. A paragraph without a match
/// gives nothing. At the first paragraph with a match a quiet search
/// stops. Otherwise each such paragraph adds the number of its matches,
/// and, unless matches are only counted, its line.
pub open spec fn scan(
    matcher: Matcher,
    options: Options,
    file_name: Seq<char>,
    chapter: Seq<char>,
    paragraphs: Seq<Seq<char>>,
) -> ScanView
    decreases paragraphs.len(),
{
    if paragraphs.len() == 0 {
        ScanView { lines: seq![], count: 0, stop: false }
    } else {
        let spans = matcher.spans(paragraphs[0]);
        let rest = scan(matcher, options, file_name, chapter, paragraphs.drop_first());
        if spans.len() == 0 {
            rest
        } else if options.quiet {
            ScanView { lines: seq![], count: 0, stop: true }
        } else if options.count {
            ScanView { lines: rest.lines, count: spans.len() + rest.count, stop: rest.stop }
        } else {
            ScanView {
                lines: seq![match_line(file_name, chapter, paragraphs[0], spans)] + rest.lines,
                count: spans.len() + rest.count,
                stop: rest.stop,
            }
        }
    }
}

/// The place of the first paragraph that holds a match; the number of
/// paragraphs where none does.
pub open spec fn first_match(matcher: Matcher, paragraphs: Seq<Seq<char>>) -> int
    decreases paragraphs.len(),
{
    if paragraphs.len() == 0 || matcher.spans(paragraphs[0]).len() > 0 {
        0
    } else {
        1 + first_match(matcher, paragraphs.drop_first())
    }
}

/// The first match lies among the paragraphs or right behind them, no
/// paragraph before it holds a match, and the paragraph there holds one.
pub proof fn lemma_first_match(matcher: Matcher, paragraphs: Seq<Seq<char>>)
    ensures
        0 <= first_match(matcher, paragraphs) <= paragraphs.len(),
        forall|i: int|
            0 <= i < first_match(matcher, paragraphs) ==> matcher.spans(
                #[trigger] paragraphs[i],
            ).len() == 0,
        first_match(matcher, paragraphs) < paragraphs.len() ==> matcher.spans(
            paragraphs[first_match(matcher, paragraphs)],
        ).len() > 0,
    decreases paragraphs.len(),
{
    if paragraphs.len() > 0 && matcher.spans(paragraphs[0]).len() == 0 {
        let rest = paragraphs.drop_first();
        lemma_first_match(matcher, rest);
        assert forall|i: int| 0 <= i < first_match(matcher, paragraphs) implies matcher.spans(
            #[trigger] paragraphs[i],
        ).len() == 0 by {
            if i > 0 {
                assert(paragraphs[i] == rest[i - 1]);
            }
        }
        if first_match(matcher, paragraphs) < paragraphs.len() {
            assert(paragraphs[first_match(matcher, paragraphs)] == rest[first_match(
                matcher,
                rest,
            )]);
        }
    }
}

/// A quiet search shows nothing and counts nothing, and it stops if and
/// only if some paragraph holds a match.
pub proof fn lemma_quiet_search(
    matcher: Matcher,
    options: Options,
    file_name: Seq<char>,
    chapter: Seq<char>,
    paragraphs: Seq<Seq<char>>,
)
    requires
        options.quiet,
    ensures
        scan(matcher, options, file_name, chapter, paragraphs).lines == Seq::<
            Seq<SegmentView>,
        >::empty(),
        scan(matcher, options, file_name, chapter, paragraphs).count == 0,
        scan(matcher, options, file_name, chapter, paragraphs).stop == (first_match(
            matcher,
            paragraphs,
        ) < paragraphs.len()),
    decreases paragraphs.len(),
{
    if paragraphs.len() > 0 {
        lemma_quiet_search(matcher, options, file_name, chapter, paragraphs.drop_first());
    }
}

/// A search that is not quiet never stops the run.
pub proof fn lemma_loud_search_goes_on(
    matcher: Matcher,
    options: Options,
    file_name: Seq<char>,
    chapter: Seq<char>,
    paragraphs: Seq<Seq<char>>,
)
    requires
        !options.quiet,
    ensures
        !scan(matcher, options, file_name, chapter, paragraphs).stop,
    decreases paragraphs.len(),
{
    if paragraphs.len() > 0 {
        lemma_loud_search_goes_on(matcher, options, file_name, chapter, paragraphs.drop_first());
    }
}

/// A search that counts shows no paragraph.
pub proof fn lemma_counting_search_shows_nothing(
    matcher: Matcher,
    options: Options,
    file_name: Seq<char>,
    chapter: Seq<char>,
    paragraphs: Seq<Seq<char>>,
)
    requires
        options.count,
    ensures
        scan(matcher, options, file_name, chapter, paragraphs).lines == Seq::<
            Seq<SegmentView>,
        >::empty(),
    decreases paragraphs.len(),
{
    if paragraphs.len() > 0 {
        lemma_counting_search_shows_nothing(
            matcher,
            options,
            file_name,
            chapter,
            paragraphs.drop_first(),
        );
    }
}

/// A search that neither counts nor is quiet shows one line for each
/// paragraph that holds a match, and no other.
pub proof fn lemma_search_shows_each_matching_paragraph(
    matcher: Matcher,
    options: Options,
    file_name: Seq<char>,
    chapter: Seq<char>,
    paragraphs: Seq<Seq<char>>,
)
    requires
        !options.count,
        !options.quiet,
    ensures
        scan(matcher, options, file_name, chapter, paragraphs).lines.len() == paragraphs.filter(
            |p: Seq<char>| matcher.spans(p).len() > 0,
        ).len(),
    decreases paragraphs.len(),
{
    reveal(Seq::filter);
    let holds = |p: Seq<char>| matcher.spans(p).len() > 0;
    if paragraphs.len() > 0 {
        let rest = paragraphs.drop_first();
        lemma_search_shows_each_matching_paragraph(matcher, options, file_name, chapter, rest);
        assert(paragraphs =~= seq![paragraphs[0]] + rest);
        Seq::filter_distributes_over_add(seq![paragraphs[0]], rest, holds);
        assert(seq![paragraphs[0]].drop_last() =~= Seq::<Seq<char>>::empty());
        assert(seq![paragraphs[0]].last() == paragraphs[0]);
        reveal_with_fuel(Seq::filter, 2);
        if holds(paragraphs[0]) {
            assert(seq![paragraphs[0]].filter(holds) =~= seq![paragraphs[0]]);
        } else {
            assert(seq![paragraphs[0]].filter(holds) =~= Seq::<Seq<char>>::empty());
        }
    }
}

/// A count that stays at the largest number once it has reached it.
pub open spec fn capped(n: nat) -> nat {
    if n > usize::MAX {
        usize::MAX as nat
    } else {
        n
    }
}

/// What the search of one document gave.
#[derive(Debug, PartialEq, Eq)]
pub struct DocumentReport {
    /// The lines to show, in order.
    pub lines: Vec<Vec<Segment>>,
    /// Whether the whole run is to end here, as a success.
    pub stop: bool,
}

/// Whether `report`, with `counted` matches counted after it, is what the
/// search of `paragraphs` gives when `before` matches were counted before.
pub open spec fn reported(
    report: DocumentReport,
    counted: nat,
    matcher: Matcher,
    options: Options,
    file_name: Seq<char>,
    chapter: Seq<char>,
    before: nat,
    paragraphs: Seq<Seq<char>>,
) -> bool {
    let found = scan(matcher, options, file_name, chapter, paragraphs);
    &&& lines_view(report.lines@) == found.lines
    &&& report.stop == found.stop
    &&& counted == capped(before + found.count)
}

/// Matchers that find the same in every text give the same search.
pub proof fn lemma_search_depends_on_what_is_found(
    first: Matcher,
    second: Matcher,
    options: Options,
    file_name: Seq<char>,
    chapter: Seq<char>,
    paragraphs: Seq<Seq<char>>,
)
    requires
        forall|text: Seq<char>| #[trigger] first.spans(text) == second.spans(text),
    ensures
        scan(first, options, file_name, chapter, paragraphs) == scan(
            second,
            options,
            file_name,
            chapter,
            paragraphs,
        ),
    decreases paragraphs.len(),
{
    if paragraphs.len() > 0 {
        lemma_search_depends_on_what_is_found(
            first,
            second,
            options,
            file_name,
            chapter,
            paragraphs.drop_first(),
        );
        assert(first.spans(paragraphs[0]) == second.spans(paragraphs[0]));
    }
}

/// Searching the same paragraphs twice for the same pattern, with the
/// same options and from the same state, gives the same lines, the same
/// decision and the same count, also where the pattern was compiled anew
/// for the second search.
pub proof fn lemma_search_is_repeatable(
    first_matcher: Matcher,
    first: DocumentReport,
    first_counted: nat,
    second_matcher: Matcher,
    second: DocumentReport,
    second_counted: nat,
    pattern: Seq<char>,
    options: Options,
    file_name: Seq<char>,
    chapter: Seq<char>,
    before: nat,
    paragraphs: Seq<Seq<char>>,
)
    requires
        first_matcher.searches_for(pattern),
        second_matcher.searches_for(pattern),
        reported(
            first,
            first_counted,
            first_matcher,
            options,
            file_name,
            chapter,
            before,
            paragraphs,
        ),
        reported(
            second,
            second_counted,
            second_matcher,
            options,
            file_name,
            chapter,
            before,
            paragraphs,
        ),
    ensures
        lines_view(first.lines@) == lines_view(second.lines@),
        first.stop == second.stop,
        first_counted == second_counted,
{
    assert forall|text: Seq<char>| #[trigger]
        first_matcher.spans(text) == second_matcher.spans(text) by {
        assert(first_matcher.spans(text) == crate::matcher::pattern_spans(pattern, text));
        assert(second_matcher.spans(text) == crate::matcher::pattern_spans(pattern, text));
    }
    lemma_search_depends_on_what_is_found(
        first_matcher,
        second_matcher,
        options,
        file_name,
        chapter,
        paragraphs,
    );
}

/// The search of one archive: which archive it is, the chapter that the
/// last described document stands in, and the matches counted so far.
pub struct ArchiveSearch {
    file_name: String,
    chapter: String,
    num_matches: usize,
}

impl ArchiveSearch {
    /// The name of the archive.
    pub closed spec fn file_name(&self) -> Seq<char> {
        self.file_name@
    }

    /// The chapter that documents are now reported under.
    pub closed spec fn chapter(&self) -> Seq<char> {
        self.chapter@
    }

    /// The number of matches counted so far.
    pub closed spec fn num_matches(&self) -> nat {
        self.num_matches as nat
    }

    /// The count fits the machine's numbers.
    pub proof fn lemma_count_fits(&self)
        ensures
            self.num_matches() <= usize::MAX,
    {
    }

    /// Begins the search of an archive: no chapter yet, no match yet.
    pub fn new(file_name: &str) -> (r: Self)
        ensures
            r.file_name() == file_name@,
            r.chapter() == Seq::<char>::empty(),
            r.num_matches() == 0,
    {
        ArchiveSearch {
            file_name: file_name.to_owned(),
            chapter: String::new(),
            num_matches: 0,
        }
    }

    /// The name of the archive.
    pub fn archive_name(&self) -> (r: &str)
        ensures
            r@ == self.file_name(),
    {
        self.file_name.as_str()
    }

    /// The chapter that documents are now reported under.
    pub fn current_chapter(&self) -> (r: &str)
        ensures
            r@ == self.chapter(),
    {
        self.chapter.as_str()
    }

    /// The number of matches counted so far.
    pub fn match_count(&self) -> (r: usize)
        ensures
            r == self.num_matches(),
    {
        self.num_matches
    }

    /// Whether the archive has given a match.
    pub fn found_match(&self) -> (r: bool)
        ensures
            r == (self.num_matches() > 0),
    {
        self.num_matches > 0
    }

    /// Moves on to the document `doc`. Where the table of contents
    /// describes the document, the description becomes the chapter; where
    /// it does not, the chapter stays.
    pub fn enter_document(&mut self, toc: &NavMap, doc: &str)
        ensures
            final(self).file_name() == old(self).file_name(),
            final(self).num_matches() == old(self).num_matches(),
            final(self).chapter() == match describe_from(toc@, 0, doc@) {
                Some(description) => description,
                None => old(self).chapter(),
            },
    {
        match toc.describe(doc) {
            Some(description) => {
                self.chapter = description;
            },
            None => {},
        }
    }

    /// Searches the paragraphs that a document still has to give.
    pub fn scan_stream(
        &mut self,
        matcher: &Matcher,
        options: Options,
        stream: &mut XhtmlTextIterator,
    ) -> (r: DocumentReport)
        ensures
            final(self).file_name() == old(self).file_name(),
            final(self).chapter() == old(self).chapter(),
            reported(
                r,
                final(self).num_matches(),
                *matcher,
                options,
                old(self).file_name(),
                old(self).chapter(),
                old(self).num_matches(),
                old(stream).remaining(),
            ),
            !r.stop ==> final(stream).remaining() == Seq::<Seq<char>>::empty(),
            r.stop ==> final(stream).remaining() == old(stream).remaining().skip(
                first_match(*matcher, old(stream).remaining()) + 1,
            ),
            r.stop ==> final(stream).pending() == old(stream).pending().skip(
                place_behind(
                    old(stream).pending(),
                    0,
                    first_match(*matcher, old(stream).remaining()),
                ),
            ),
    {
        let ghost all = stream.pending();
        let ghost mut read: int = 0;
        let ghost initial = stream.remaining();
        let ghost mut consumed: int = 0;
        let ghost file_name = self.file_name();
        let ghost chapter = self.chapter();
        let ghost before = self.num_matches();
        let ghost total = scan(*matcher, options, file_name, chapter, stream.remaining());
        let ghost mut counted: nat = 0;
        let mut lines: Vec<Vec<Segment>> = Vec::new();
        let mut stop = false;
        let mut done = false;
        assert(lines_view(lines@) =~= seq![]);
        assert(initial.skip(0) =~= initial);
        assert(all.skip(0) =~= all);
        while !done
            invariant
                0 <= read <= all.len(),
                !done ==> stream.pending() == all.skip(read),
                options.quiet && !done ==> place_behind(all, 0, first_match(*matcher, initial))
                    == place_behind(all, read, first_match(*matcher, stream.remaining())),
                stop ==> stream.pending() == all.skip(
                    place_behind(all, 0, first_match(*matcher, initial)),
                ),
                0 <= consumed <= initial.len(),
                !done ==> stream.remaining() == initial.skip(consumed),
                options.quiet && !done ==> first_match(*matcher, initial) == consumed + first_match(
                    *matcher,
                    stream.remaining(),
                ),
                stop ==> stream.remaining() == initial.skip(first_match(*matcher, initial) + 1),
                file_name == self.file_name(),
                chapter == self.chapter(),
                self.num_matches() == capped(before + counted),
                stop ==> done,
                ({
                    let rest = if done {
                        ScanView { lines: seq![], count: 0, stop }
                    } else {
                        scan(*matcher, options, file_name, chapter, stream.remaining())
                    };
                    &&& total.lines == lines_view(lines@) + rest.lines
                    &&& total.count == counted + rest.count
                    &&& total.stop == rest.stop
                }),
                done && !stop ==> stream.remaining() == Seq::<Seq<char>>::empty(),
            decreases stream.remaining().len() + (if done { 0int } else { 1int }),
        {
            let ghost paragraphs = stream.remaining();
            let ghost shown = lines_view(lines@);
            match stream.next() {
                None => {
                    done = true;
                },
                Some(paragraph) => {
                    proof {
                        let step = next_paragraph(all.skip(read), 0).unwrap().1;
                        lemma_next_paragraph_skip(all, read, 0);
                        lemma_next_paragraph_advances(all.skip(read), 0);
                        assert(all.skip(read).skip(step) =~= all.skip(read + step));
                        assert(next_paragraph(all, read) == Some((paragraph@, read + step)));
                        if matcher.spans(paragraph@).len() == 0 {
                            lemma_first_match(*matcher, paragraphs.drop_first());
                            assert(first_match(*matcher, paragraphs) == 1 + first_match(
                                *matcher,
                                paragraphs.drop_first(),
                            ));
                            assert(place_behind(all, read, first_match(*matcher, paragraphs))
                                == place_behind(
                                all,
                                read + step,
                                first_match(*matcher, paragraphs.drop_first()),
                            ));
                        } else {
                            assert(first_match(*matcher, paragraphs) == 0);
                            assert(place_behind(all, read, 0) == read + step);
                        }
                        read = read + step;
                        assert(paragraphs.drop_first() =~= stream.remaining());
                        assert(paragraphs[0] == paragraph@);
                        assert(initial.skip(consumed).drop_first() =~= initial.skip(consumed + 1));
                        consumed = consumed + 1;
                    }
                    if matcher.is_match(paragraph.as_str()) {
                        if options.quiet {
                            stop = true;
                            done = true;
                        } else {
                            let spans = matcher.find_all(paragraph.as_str());
                            if !options.count {
                                let line = print_paragraph(
                                    self.file_name.as_str(),
                                    self.chapter.as_str(),
                                    paragraph.as_str(),
                                    &spans,
                                );
                                lines.push(line);
                                proof {
                                    assert(lines_view(lines@) =~= shown.push(line_view(line@)));
                                    let rest = scan(
                                        *matcher,
                                        options,
                                        file_name,
                                        chapter,
                                        stream.remaining(),
                                    );
                                    assert(shown + (seq![line_view(line@)] + rest.lines)
                                        =~= lines_view(lines@) + rest.lines);
                                }
                            }
                            self.num_matches = self.num_matches.saturating_add(spans.len());
                            proof {
                                counted = counted + spans.len() as nat;
                            }
                        }
                    }
                },
            }
        }
        proof {
            assert(lines_view(lines@) + Seq::<Seq<SegmentView>>::empty() =~= lines_view(lines@));
        }
        DocumentReport { lines, stop }
    }

    /// Searches one document of the archive.
    pub fn scan_document(&mut self, matcher: &Matcher, options: Options, document: &[u8]) -> (r:
        DocumentReport)
        ensures
            final(self).file_name() == old(self).file_name(),
            final(self).chapter() == old(self).chapter(),
            reported(
                r,
                final(self).num_matches(),
                *matcher,
                options,
                old(self).file_name(),
                old(self).chapter(),
                old(self).num_matches(),
                paragraphs_from(document_events(document@), 0),
            ),
    {
        let mut stream = XhtmlTextIterator::new(document);
        self.scan_stream(matcher, options, &mut stream)
    }

    /// The line that sums the archive up where matches are counted.
    pub fn summary(&self) -> (r: Vec<Segment>)
        ensures
            line_view(r@) == count_line(self.file_name(), self.num_matches()),
    {
        print_count(self.file_name.as_str(), self.num_matches)
    }
}

} // verus!
