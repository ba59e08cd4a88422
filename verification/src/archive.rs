use crate::container::content_file_name;
use crate::container::get_content_file_name;
use crate::error::EpubError;
use crate::event::document_events;
use crate::matcher::Matcher;
use crate::navigation::NavMap;
use crate::navigation::NavPointView;
use crate::navigation::describe_from;
use crate::navigation::nav_map;
use crate::navigation::read_navigation;
use crate::package::get_spine_documents;
use crate::package::resolve_package;
use crate::package::strings_view;
use crate::paragraph::paragraphs_from;
use crate::path::folder_of;
use crate::report::Segment;
use crate::report::SegmentView;
use crate::report::count_line;
use crate::report::error_line;
use crate::report::line_view;
use crate::report::lines_view;
use crate::report::print_error;
use crate::run::archive_error_message;
use crate::run::archive_error_text;
use crate::run::document_error_message;
use crate::search::ArchiveSearch;
use crate::search::Options;
use crate::search::capped;
use crate::search::scan;
use vstd::prelude::*;

verus! {

/// How far the search of an archive has come.
#[derive(Clone, Copy, Debug, PartialEq, Eq, Structural)]
pub enum Phase {
    /// The container descriptor is wanted.
    Container,
    /// The package document is wanted.
    Package,
    /// The navigation document is wanted.
    Navigation,
    /// A document of the spine is wanted.
    Documents,
    /// Nothing more is wanted.
    Finished,
}

/// What the search of an archive knows at some moment.
pub struct ArchiveState {
    pub phase: Phase,
    /// The name of the archive.
    pub file_name: Seq<char>,
    /// The path of the package document, once the container has named it.
    pub content_file_name: Seq<char>,
    /// The path of the navigation document, once the package has named it.
    pub toc_path: Seq<char>,
    /// The reading order, once the package has given it.
    pub spine: Seq<Seq<char>>,
    /// The place in the reading order of the document that is wanted.
    pub position: int,
    /// The table of contents, once it is read.
    pub toc: Seq<NavPointView>,
    /// The chapter that documents are now reported under.
    pub chapter: Seq<char>,
    /// The matches counted so far.
    pub num_matches: nat,
}

/// What one entry of an archive made the search say.
pub struct OutputView {
    /// The lines for the output, in order.
    pub lines: Seq<Seq<SegmentView>>,
    /// The lines for the error stream, in order.
    pub errors: Seq<Seq<SegmentView>>,
    /// Whether the whole run is to end here, as a success.
    pub stop: bool,
}

/// The entry of the archive that the search wants next, if it wants one.
pub open spec fn wanted(state: ArchiveState) -> Option<Seq<char>> {
    match state.phase {
        Phase::Container => Some("META-INF/container.xml"@),
        Phase::Package => Some(state.content_file_name),
        Phase::Navigation => Some(state.toc_path),
        Phase::Documents => Some(state.spine[state.position]),
        Phase::Finished => None,
    }
}

/// Saying nothing.
pub open spec fn silence() -> OutputView {
    OutputView { lines: seq![], errors: seq![], stop: false }
}

/// The search gives the archive up with an error.
pub open spec fn given_up(state: ArchiveState, error: EpubError) -> (ArchiveState, OutputView) {
    (
        ArchiveState { phase: Phase::Finished, ..state },
        OutputView {
            lines: seq![],
            errors: seq![error_line(archive_error_text(error, state.file_name))],
            stop: false,
        },
    )
}

/// The lines that end the search of an archive in order: the sum of its
/// matches where matches are counted, else nothing.
pub open spec fn closing_lines(options: Options, file_name: Seq<char>, num_matches: nat) -> Seq<
    Seq<SegmentView>,
> {
    if options.count {
        seq![count_line(file_name, num_matches)]
    } else {
        seq![]
    }
}

/// What the search does with the entry it wanted. `content` is what the
/// archive holds under the wanted path, if it holds anything there.
///
/// The container names the package document, the package document names
/// the navigation document and the reading order, and the navigation
/// document gives the table of contents; where one of them fails, the
/// archive is given up with one error line. Then the documents are
/// searched in reading order. Each document first sets the chapter, if the
/// table of contents describes it. A document that the archive does not
/// hold gives one error line and is passed over. A search that stops ends
/// the archive at once; after the last document the archive is summed up.
pub open spec fn fed(
    state: ArchiveState,
    matcher: Matcher,
    options: Options,
    content: Option<Seq<u8>>,
) -> (ArchiveState, OutputView) {
    match state.phase {
        Phase::Container => {
            let located = match content {
                Some(bytes) => content_file_name(document_events(bytes)),
                None => Err(EpubError::ContainerMissing),
            };
            match located {
                Ok(name) => (
                    ArchiveState { phase: Phase::Package, content_file_name: name, ..state },
                    silence(),
                ),
                Err(e) => given_up(state, e),
            }
        },
        Phase::Package => {
            let resolved = match content {
                Some(bytes) => resolve_package(
                    document_events(bytes),
                    folder_of(state.content_file_name),
                ),
                None => Err(EpubError::PackageMissing),
            };
            match resolved {
                Ok(package) => (
                    ArchiveState {
                        phase: Phase::Navigation,
                        toc_path: package.toc,
                        spine: package.spine,
                        ..state
                    },
                    silence(),
                ),
                Err(e) => given_up(state, e),
            }
        },
        Phase::Navigation => {
            let read = match content {
                Some(bytes) => nav_map(document_events(bytes), folder_of(state.toc_path)),
                None => None,
            };
            match read {
                Some(toc) => if state.spine.len() == 0 {
                    (
                        ArchiveState { phase: Phase::Finished, toc, ..state },
                        OutputView {
                            lines: closing_lines(options, state.file_name, state.num_matches),
                            errors: seq![],
                            stop: false,
                        },
                    )
                } else {
                    (
                        ArchiveState { phase: Phase::Documents, toc, position: 0, ..state },
                        silence(),
                    )
                },
                None => given_up(state, EpubError::MalformedNavigation),
            }
        },
        Phase::Documents => {
            let doc = state.spine[state.position];
            let chapter = match describe_from(state.toc, 0, doc) {
                Some(description) => description,
                None => state.chapter,
            };
            let found = match content {
                Some(bytes) => scan(
                    matcher,
                    options,
                    state.file_name,
                    chapter,
                    paragraphs_from(document_events(bytes), 0),
                ),
                None => scan(matcher, options, state.file_name, chapter, seq![]),
            };
            let errors = match content {
                Some(_) => seq![],
                None => seq![error_line(doc + " is a malformed epub"@)],
            };
            let num_matches = capped(state.num_matches + found.count);
            let last = found.stop || state.position + 1 >= state.spine.len();
            (
                ArchiveState {
                    phase: if last {
                        Phase::Finished
                    } else {
                        Phase::Documents
                    },
                    position: if last {
                        state.position
                    } else {
                        state.position + 1
                    },
                    chapter,
                    num_matches,
                    ..state
                },
                OutputView {
                    lines: if last && !found.stop {
                        found.lines + closing_lines(options, state.file_name, num_matches)
                    } else {
                        found.lines
                    },
                    errors,
                    stop: found.stop,
                },
            )
        },
        Phase::Finished => (state, silence()),
    }
}

/// A search that stops the run wants nothing more of its archive.
pub proof fn lemma_stop_finishes_the_archive(
    state: ArchiveState,
    matcher: Matcher,
    options: Options,
    content: Option<Seq<u8>>,
)
    ensures
        fed(state, matcher, options, content).1.stop ==> fed(state, matcher, options, content).0.phase
            == Phase::Finished && wanted(fed(state, matcher, options, content).0) is None,
{
}

/// Every entry but a document of the spine is needed: where the archive
/// does not hold it, the archive is given up with one error line, and the
/// search of the archive is over.
pub proof fn lemma_missing_entry_gives_the_archive_up(
    state: ArchiveState,
    matcher: Matcher,
    options: Options,
)
    requires
        state.phase == Phase::Container || state.phase == Phase::Package || state.phase
            == Phase::Navigation,
    ensures
        fed(state, matcher, options, None).0.phase == Phase::Finished,
        fed(state, matcher, options, None).1.errors.len() == 1,
        fed(state, matcher, options, None).1.lines.len() == 0,
        !fed(state, matcher, options, None).1.stop,
        fed(state, matcher, options, None).0.num_matches == state.num_matches,
{
}

/// What the container descriptor of an archive names, or why it names
/// nothing.
pub open spec fn located(content: Option<Seq<u8>>) -> Result<Seq<char>, EpubError> {
    match content {
        Some(bytes) => content_file_name(document_events(bytes)),
        None => Err(EpubError::ContainerMissing),
    }
}

/// An archive whose container descriptor names no package document is
/// given up with one error line: nothing more is wanted of it, no package
/// document is read, and nothing is counted. The search of the next
/// archive begins in its own state and is not touched by this.
pub proof fn lemma_container_error_gives_the_archive_up(
    state: ArchiveState,
    matcher: Matcher,
    options: Options,
    content: Option<Seq<u8>>,
)
    requires
        state.phase == Phase::Container,
        located(content) is Err,
    ensures
        fed(state, matcher, options, content) == given_up(state, located(content)->Err_0),
        wanted(fed(state, matcher, options, content).0) is None,
        fed(state, matcher, options, content).1.errors == seq![
            error_line(archive_error_text(located(content)->Err_0, state.file_name)),
        ],
        fed(state, matcher, options, content).1.lines.len() == 0,
        !fed(state, matcher, options, content).1.stop,
        fed(state, matcher, options, content).0.num_matches == state.num_matches,
{
}

/// The documents of the spine are wanted one after the other in reading
/// order: after a document that does not stop the run, the next one is
/// wanted, and after the last one nothing.
pub proof fn lemma_documents_are_wanted_in_reading_order(
    state: ArchiveState,
    matcher: Matcher,
    options: Options,
    content: Option<Seq<u8>>,
)
    requires
        state.phase == Phase::Documents,
        0 <= state.position < state.spine.len(),
        !fed(state, matcher, options, content).1.stop,
    ensures
        fed(state, matcher, options, content).0.spine == state.spine,
        wanted(fed(state, matcher, options, content).0) == if state.position + 1
            < state.spine.len() {
            Some(state.spine[state.position + 1])
        } else {
            None
        },
{
}

/// The place of a phase in the order of the phases.
pub open spec fn rank(phase: Phase) -> int {
    match phase {
        Phase::Container => 0,
        Phase::Package => 1,
        Phase::Navigation => 2,
        Phase::Documents => 3,
        Phase::Finished => 4,
    }
}

/// Every entry brings the search forward: to a later phase, or to the
/// next document of the spine. So a search that is fed what it wants comes
/// to its end.
pub proof fn lemma_feeding_goes_forward(
    state: ArchiveState,
    matcher: Matcher,
    options: Options,
    content: Option<Seq<u8>>,
)
    requires
        state.phase != Phase::Finished,
        state.phase == Phase::Documents ==> 0 <= state.position < state.spine.len(),
    ensures
        ({
            let next = fed(state, matcher, options, content).0;
            ||| rank(next.phase) > rank(state.phase)
            ||| next.phase == Phase::Documents && next.spine == state.spine && state.position
                < next.position < next.spine.len()
        }),
        fed(state, matcher, options, content).0.phase == Phase::Documents ==> 0 <= fed(
            state,
            matcher,
            options,
            content,
        ).0.position < fed(state, matcher, options, content).0.spine.len(),
        fed(state, matcher, options, content).0.file_name == state.file_name,
{
}

/// What one entry of an archive made the search say.
#[derive(Debug, PartialEq, Eq)]
pub struct Output {
    /// The lines for the output, in order.
    pub lines: Vec<Vec<Segment>>,
    /// The lines for the error stream, in order.
    pub errors: Vec<Vec<Segment>>,
    /// Whether the whole run is to end here, as a success.
    pub stop: bool,
}

impl View for Output {
    type V = OutputView;

    open spec fn view(&self) -> OutputView {
        OutputView {
            lines: lines_view(self.lines@),
            errors: lines_view(self.errors@),
            stop: self.stop,
        }
    }
}

/// The bytes of an entry, if there is one.
pub open spec fn content_view(content: Option<&[u8]>) -> Option<Seq<u8>> {
    match content {
        Some(bytes) => Some(bytes@),
        None => None,
    }
}

/// The state in which the search of an archive begins.
pub open spec fn initial(file_name: Seq<char>) -> ArchiveState {
    ArchiveState {
        phase: Phase::Container,
        file_name,
        content_file_name: seq![],
        toc_path: seq![],
        spine: seq![],
        position: 0,
        toc: seq![],
        chapter: seq![],
        num_matches: 0,
    }
}

/// The search of one archive, fed with the entries it asks for.
pub struct ArchiveRun {
    phase: Phase,
    search: ArchiveSearch,
    content_file_name: String,
    toc_path: String,
    spine: Vec<String>,
    position: usize,
    toc: NavMap,
}

impl View for ArchiveRun {
    type V = ArchiveState;

    closed spec fn view(&self) -> ArchiveState {
        ArchiveState {
            phase: if self.phase == Phase::Documents && self.position >= self.spine.len() {
                Phase::Finished
            } else {
                self.phase
            },
            file_name: self.search.file_name(),
            content_file_name: self.content_file_name@,
            toc_path: self.toc_path@,
            spine: strings_view(self.spine@),
            position: self.position as int,
            toc: self.toc@,
            chapter: self.search.chapter(),
            num_matches: self.search.num_matches(),
        }
    }
}

impl ArchiveRun {
    /// Begins the search of an archive.
    pub fn new(file_name: &str) -> (r: Self)
        ensures
            r@ == initial(file_name@),
    {
        let r = ArchiveRun {
            phase: Phase::Container,
            search: ArchiveSearch::new(file_name),
            content_file_name: String::new(),
            toc_path: String::new(),
            spine: Vec::new(),
            position: 0,
            toc: NavMap { points: Vec::new() },
        };
        assert(r@.spine =~= Seq::<Seq<char>>::empty());
        assert(r@.toc =~= Seq::<NavPointView>::empty());
        r
    }

    /// The entry of the archive that is wanted next, if one is wanted.
    pub fn wanted(&self) -> (r: Option<&str>)
        ensures
            r is Some == wanted(self@) is Some,
            r matches Some(name) ==> Some(name@) == wanted(self@),
    {
        match self.phase {
            Phase::Container => Some(crate::container::container_path()),
            Phase::Package => Some(self.content_file_name.as_str()),
            Phase::Navigation => Some(self.toc_path.as_str()),
            Phase::Documents => if self.position < self.spine.len() {
                Some(self.spine[self.position].as_str())
            } else {
                None
            },
            Phase::Finished => None,
        }
    }

    /// Whether the archive has given a match.
    pub fn found_match(&self) -> (r: bool)
        ensures
            r == (self@.num_matches > 0),
    {
        self.search.found_match()
    }

    /// The number of matches counted so far.
    pub fn match_count(&self) -> (r: usize)
        ensures
            r == self@.num_matches,
    {
        self.search.match_count()
    }

    /// The line that gives the archive up.
    fn give_up(&self, error: EpubError) -> (r: Vec<Segment>)
        ensures
            line_view(r@) == error_line(archive_error_text(error, self@.file_name)),
    {
        let message = archive_error_message(error, self.search.archive_name());
        print_error(message.as_str())
    }

    /// Takes the entry that was wanted, or word that the archive does not
    /// hold it, and says what is to be shown for it.
    pub fn feed(&mut self, matcher: &Matcher, options: Options, content: Option<&[u8]>) -> (r:
        Output)
        ensures
            (final(self)@, r@) == fed(old(self)@, *matcher, options, content_view(content)),
    {
        let mut lines: Vec<Vec<Segment>> = Vec::new();
        let mut errors: Vec<Vec<Segment>> = Vec::new();
        let mut stop = false;
        assert(lines_view(lines@) =~= seq![]);
        assert(lines_view(errors@) =~= seq![]);
        match self.phase {
            Phase::Container => {
                match get_content_file_name(content) {
                    Ok(name) => {
                        self.content_file_name = name;
                        self.phase = Phase::Package;
                    },
                    Err(e) => {
                        let line = self.give_up(e);
                        errors.push(line);
                        assert(lines_view(errors@) =~= seq![line_view(line@)]);
                        self.phase = Phase::Finished;
                    },
                }
            },
            Phase::Package => {
                match get_spine_documents(self.content_file_name.as_str(), content) {
                    Ok((toc_path, spine)) => {
                        self.toc_path = toc_path;
                        self.spine = spine;
                        self.phase = Phase::Navigation;
                    },
                    Err(e) => {
                        let line = self.give_up(e);
                        errors.push(line);
                        assert(lines_view(errors@) =~= seq![line_view(line@)]);
                        self.phase = Phase::Finished;
                    },
                }
            },
            Phase::Navigation => {
                match read_navigation(self.toc_path.as_str(), content) {
                    Ok(toc) => {
                        self.toc = toc;
                        if self.spine.len() == 0 {
                            if options.count {
                                let line = self.search.summary();
                                lines.push(line);
                                assert(lines_view(lines@) =~= seq![line_view(line@)]);
                            }
                            self.phase = Phase::Finished;
                        } else {
                            self.position = 0;
                            self.phase = Phase::Documents;
                        }
                    },
                    Err(e) => {
                        let line = self.give_up(e);
                        errors.push(line);
                        assert(lines_view(errors@) =~= seq![line_view(line@)]);
                        self.phase = Phase::Finished;
                    },
                }
            },
            Phase::Documents => if self.position < self.spine.len() {
                let ghost before = self@;
                assert(before.spine[before.position] == self.spine@[self.position as int]@);
                self.search.enter_document(&self.toc, self.spine[self.position].as_str());
                match content {
                    Some(bytes) => {
                        let report = self.search.scan_document(matcher, options, bytes);
                        lines = report.lines;
                        stop = report.stop;
                    },
                    None => {
                        proof {
                            self.search.lemma_count_fits();
                        }
                        let message = document_error_message(self.spine[self.position].as_str());
                        let line = print_error(message.as_str());
                        errors.push(line);
                        assert(lines_view(errors@) =~= seq![line_view(line@)]);
                    },
                }
                if stop {
                    self.phase = Phase::Finished;
                } else if self.position + 1 < self.spine.len() {
                    self.position = self.position + 1;
                } else {
                    if options.count {
                        let ghost shown = lines_view(lines@);
                        let line = self.search.summary();
                        lines.push(line);
                        assert(lines_view(lines@) =~= shown + seq![line_view(line@)]);
                    } else {
                        assert(lines_view(lines@) + Seq::<Seq<SegmentView>>::empty()
                            =~= lines_view(lines@));
                    }
                    self.phase = Phase::Finished;
                }
            },
            Phase::Finished => {},
        }
        Output { lines, errors, stop }
    }
}

} // verus!
