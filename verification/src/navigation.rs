//! the EPub Navigation Document
//! https://www.w3.org/publishing/epub32/epub-packages.html#sec-package-nav
use vstd::prelude::*;
use crate::error::EPubError;
use crate::io::{lines_error, split_lines, InputFile};
use crate::package::{meta_of, meta_views, tag_views, is_line_end, Meta, MetaView};
use crate::sax::{
    event_views, file_events, is_text_file, read_document, same_text, StartTag, StartTagView,
    XmlEvent, XmlEventView,
};

verus! {

/// The number that a run of decimal digits stands for; nothing where
/// another character is among them.
pub open spec fn decimal_value(digits: Seq<char>) -> Option<nat>
    decreases digits.len(),
{
    if digits.len() == 0 {
        Some(0)
    } else {
        let last = digits.last();
        match decimal_value(digits.drop_last()) {
            Some(value) => if '0' <= last <= '9' {
                Some(value * 10 + (last as u32 - '0' as u32) as nat)
            } else {
                None
            },
            None => None,
        }
    }
}

/// The number that a text stands for: decimal digits, at least one, after
/// a plus sign or without one, with a value that a `u32` can hold.
pub open spec fn number_of(text: Seq<char>) -> Option<u32> {
    let digits = if text.len() > 0 && text[0] == '+' {
        text.skip(1)
    } else {
        text
    };
    if digits.len() == 0 {
        None
    } else {
        match decimal_value(digits) {
            Some(value) => if value <= u32::MAX {
                Some(value as u32)
            } else {
                None
            },
            None => None,
        }
    }
}

/// The value of digits is at least the value of the digits before any place
/// in them, and there is none where there is none before that place.
pub proof fn lemma_decimal_prefix(digits: Seq<char>, n: int)
    requires
        0 <= n <= digits.len(),
    ensures
        decimal_value(digits.take(n)) is None ==> decimal_value(digits) is None,
        decimal_value(digits) matches Some(value) ==> decimal_value(digits.take(n)) matches Some(
            part,
        ) && part <= value,
    decreases digits.len() - n,
{
    if n == digits.len() {
        assert(digits.take(n) =~= digits);
    } else {
        lemma_decimal_prefix(digits, n + 1);
        assert(digits.take(n + 1).drop_last() =~= digits.take(n));
    }
}

/// Reads a number from a text, as [`number_of`] says.
pub fn parse_number(text: &str) -> (r: Option<u32>)
    ensures
        r == number_of(text@),
{
    let n: usize = text.unicode_len();
    let start: usize = if n > 0 && text.get_char(0) == '+' {
        1
    } else {
        0
    };
    if start == n {
        return None;
    }
    let ghost digits = text@.skip(start as int);
    let mut value: u64 = 0;
    let mut i: usize = start;
    proof {
        assert(digits.take(0) =~= Seq::<char>::empty());
        assert(text@.skip(0) =~= text@);
        assert(digits == if text@.len() > 0 && text@[0] == '+' {
            text@.skip(1)
        } else {
            text@
        });
        assert(digits.len() == n - start);
    }
    while i < n
        invariant
            n == text@.len(),
            start <= i <= n,
            start <= 1,
            digits == text@.skip(start as int),
            digits.len() == n - start,
            digits.len() > 0,
            number_of(text@) == (match decimal_value(digits) {
                Some(value) => if value <= u32::MAX {
                    Some(value as u32)
                } else {
                    None
                },
                None => None,
            }),
            decimal_value(digits.take(i - start)) == Some(value as nat),
            value <= u32::MAX,
        decreases n - i,
    {
        let c: char = text.get_char(i);
        let ghost part = digits.take(i - start + 1);
        proof {
            assert(part.drop_last() =~= digits.take(i - start));
            assert(part.last() == c);
            lemma_decimal_prefix(digits, i - start + 1);
        }
        if c < '0' || c > '9' {
            assert(decimal_value(part) is None);
            return None;
        }
        let digit: u64 = (c as u32 - '0' as u32) as u64;
        value = value * 10 + digit;
        assert(decimal_value(part) == Some(value as nat));
        if value > u32::MAX as u64 {
            return None;
        }
        i += 1;
    }
    proof {
        assert(digits.take(n - start) =~= digits);
    }
    Some(value as u32)
}

/// NavPoint from EPub file
#[derive(Debug)]
pub struct NavPoint {
    pub id: String,
    pub play_order: u32,
    pub label: String,
    pub content: String,
}

/// What a [`NavPoint`] holds.
pub struct NavPointView {
    pub id: Seq<char>,
    pub play_order: u32,
    pub label: Seq<char>,
    pub content: Seq<char>,
}

impl View for NavPoint {
    type V = NavPointView;

    open spec fn view(&self) -> NavPointView {
        NavPointView {
            id: self.id@,
            play_order: self.play_order,
            label: self.label@,
            content: self.content@,
        }
    }
}

/// What a sequence of navigation points holds.
pub open spec fn nav_point_views(points: Seq<NavPoint>) -> Seq<NavPointView> {
    points.map_values(|point: NavPoint| point@)
}

/// What an optional navigation point holds.
pub open spec fn nav_point_view(point: Option<NavPoint>) -> Option<NavPointView> {
    match point {
        Some(point) => Some(point@),
        None => None,
    }
}

/// The navigation point of a `navPoint` tag: its `id` and its `playOrder`
/// as a number, without label and content. A tag that lacks one of the two,
/// or whose `playOrder` is no number, gives nothing.
pub open spec fn nav_point_of(tag: StartTagView) -> Option<NavPointView> {
    match (tag.attribute("id"@), tag.attribute("playOrder"@)) {
        (Some(id), Some(order)) => match number_of(order) {
            Some(play_order) => Some(
                NavPointView { id, play_order, label: Seq::empty(), content: Seq::empty() },
            ),
            None => None,
        },
        _ => None,
    }
}

/// The navigation point `point` with the `src` of a `content` tag behind
/// its content. A tag without `src` gives nothing.
pub open spec fn nav_point_with_content(point: NavPointView, tag: StartTagView) -> Option<
    NavPointView,
> {
    match tag.attribute("src"@) {
        Some(src) => Some(NavPointView { content: point.content + src, ..point }),
        None => None,
    }
}

impl NavPoint {
    /// A navigation point from a `navPoint` tag.
    pub fn new(tag: &StartTag) -> (r: Result<NavPoint, EPubError>)
        ensures
            match nav_point_of(tag@) {
                Some(point) => r matches Ok(made) && made@ == point,
                None => r matches Err(e) && e == EPubError::InvalidXml,
            },
    {
        match tag.attribute("id") {
            Some(id_val) => match tag.attribute("playOrder") {
                Some(order_val) => match parse_number(order_val.as_str()) {
                    Some(play_order) => Ok(
                        NavPoint {
                            id: id_val.clone(),
                            play_order,
                            label: String::new(),
                            content: String::new(),
                        },
                    ),
                    None => Err(EPubError::InvalidXml),
                },
                None => Err(EPubError::InvalidXml),
            },
            None => Err(EPubError::InvalidXml),
        }
    }

    /// Puts `label` behind the label of the point.
    pub fn add_label(&mut self, label: &str)
        ensures
            final(self)@ == (NavPointView { label: old(self)@.label + label@, ..old(self)@ }),
    {
        self.label.append(label);
    }

    /// Puts the `src` of a `content` tag behind the content of the point.
    /// A tag without `src` is refused, and nothing is added.
    pub fn add_content(&mut self, tag: &StartTag) -> (r: Result<(), EPubError>)
        ensures
            match nav_point_with_content(old(self)@, tag@) {
                Some(point) => r is Ok && final(self)@ == point,
                None => r == Err::<(), EPubError>(EPubError::InvalidXml) && final(self)@ == old(
                    self,
                )@,
            },
    {
        if let Some(content) = tag.attribute("src") {
            self.content.append(content.as_str());
            Ok(())
        } else {
            Err(EPubError::InvalidXml)
        }
    }
}

/// TOC from EPub file
#[derive(Debug)]
pub struct Toc {
    pub meta_entries: Vec<Meta>,
    pub doc_title: String,
    pub nav_points: Vec<NavPoint>,
}

/// What a [`Toc`] holds.
pub struct TocView {
    pub meta_entries: Seq<MetaView>,
    pub doc_title: Seq<char>,
    pub nav_points: Seq<NavPointView>,
}

impl View for Toc {
    type V = TocView;

    open spec fn view(&self) -> TocView {
        TocView {
            meta_entries: meta_views(self.meta_entries@),
            doc_title: self.doc_title@,
            nav_points: nav_point_views(self.nav_points@),
        }
    }
}

/// Where the reading of a navigation document stands.
pub struct TocState {
    /// the start tags of the elements that are open
    pub stack: Seq<StartTagView>,
    /// the characters since the last start tag
    pub chars: Seq<char>,
    pub in_head: bool,
    pub in_doctitle: bool,
    pub in_navmap: bool,
    pub in_navpoint: bool,
    /// the navigation point that is being read
    pub nav_point: Option<NavPointView>,
    pub toc: TocView,
}

/// The state before the first event of a navigation document.
pub open spec fn toc_start() -> TocState {
    TocState {
        stack: Seq::empty(),
        chars: Seq::empty(),
        in_head: false,
        in_doctitle: false,
        in_navmap: false,
        in_navpoint: false,
        nav_point: None,
        toc: TocView {
            meta_entries: Seq::empty(),
            doc_title: Seq::empty(),
            nav_points: Seq::empty(),
        },
    }
}

/// The state after a start tag: the section that the tag opens is entered,
/// a `navPoint` inside the map starts a navigation point, the tag is kept
/// until its element ends, and the characters start anew.
pub open spec fn toc_after_start(state: TocState, tag: StartTagView) -> Option<TocState> {
    let opened = TocState { stack: state.stack.push(tag), chars: Seq::empty(), ..state };
    if tag.name == "head"@ {
        Some(TocState { in_head: true, ..opened })
    } else if tag.name == "navMap"@ {
        Some(TocState { in_navmap: true, ..opened })
    } else if tag.name == "navPoint"@ && state.in_navmap {
        match nav_point_of(tag) {
            Some(point) => Some(TocState { in_navpoint: true, nav_point: Some(point), ..opened }),
            None => None,
        }
    } else if tag.name == "docTitle"@ {
        Some(TocState { in_doctitle: true, ..opened })
    } else {
        Some(opened)
    }
}

/// The state after the end tag `name`.
///
/// The element that ends is the one that was opened last; an end tag with
/// nothing open is passed over, one of another name than the start tag is
/// refused. The end of a section leaves the section, and the end of a
/// navigation point adds the point that was read. A `text` gives the
/// label of the point, or the title of the document; a `content` gives the
/// content of the point; a `meta` in the head is added to the entries.
pub open spec fn toc_after_end(state: TocState, name: Seq<char>) -> Option<TocState> {
    if state.stack.len() == 0 {
        Some(state)
    } else {
        let tag = state.stack.last();
        let closed = TocState { stack: state.stack.drop_last(), ..state };
        if tag.name != name {
            None
        } else if name == "head"@ {
            Some(TocState { in_head: false, ..closed })
        } else if name == "navMap"@ {
            Some(TocState { in_navmap: false, ..closed })
        } else if name == "navPoint"@ {
            match closed.nav_point {
                Some(point) => Some(
                    TocState {
                        in_navpoint: false,
                        nav_point: None,
                        toc: TocView { nav_points: closed.toc.nav_points.push(point), ..closed.toc },
                        ..closed
                    },
                ),
                None => Some(TocState { in_navpoint: false, ..closed }),
            }
        } else if name == "docTitle"@ {
            Some(TocState { in_doctitle: false, ..closed })
        } else if name == "text"@ {
            if closed.in_navpoint {
                match closed.nav_point {
                    Some(point) => Some(
                        TocState {
                            nav_point: Some(
                                NavPointView { label: point.label + closed.chars, ..point },
                            ),
                            ..closed
                        },
                    ),
                    None => Some(closed),
                }
            } else if closed.in_doctitle {
                Some(
                    TocState {
                        toc: TocView { doc_title: closed.toc.doc_title + closed.chars, ..closed.toc },
                        ..closed
                    },
                )
            } else {
                Some(closed)
            }
        } else if name == "content"@ && closed.in_navpoint {
            match closed.nav_point {
                Some(point) => match nav_point_with_content(point, tag) {
                    Some(point) => Some(TocState { nav_point: Some(point), ..closed }),
                    None => None,
                },
                None => Some(closed),
            }
        } else if name == "meta"@ && closed.in_head {
            match meta_of(tag, closed.chars) {
                Some(meta) => Some(
                    TocState {
                        toc: TocView {
                            meta_entries: closed.toc.meta_entries.push(meta),
                            ..closed.toc
                        },
                        ..closed
                    },
                ),
                None => None,
            }
        } else {
            Some(closed)
        }
    }
}

/// The state after one event. Characters are gathered, unless they are
/// only the end of a line; what is neither tag nor characters is passed
/// over.
pub open spec fn toc_step(state: TocState, event: XmlEventView) -> Option<TocState> {
    match event {
        XmlEventView::ElementStart(tag) => toc_after_start(state, tag),
        XmlEventView::ElementEnd(name) => toc_after_end(state, name),
        XmlEventView::Characters(text) => if is_line_end(text) {
            Some(state)
        } else {
            Some(TocState { chars: state.chars + text, ..state })
        },
        _ => Some(state),
    }
}

/// The state after a sequence of events, unless one of them is refused.
pub open spec fn toc_fold(state: TocState, events: Seq<XmlEventView>) -> Option<TocState>
    decreases events.len(),
{
    if events.len() == 0 {
        Some(state)
    } else {
        match toc_step(state, events[0]) {
            Some(next) => toc_fold(next, events.skip(1)),
            None => None,
        }
    }
}

/// The table of contents that a sequence of events describes, if they
/// describe one.
pub open spec fn toc_from(events: Seq<XmlEventView>) -> Option<TocView> {
    match toc_fold(toc_start(), events) {
        Some(state) => Some(state.toc),
        None => None,
    }
}

/// Whether `r` is the outcome of reading the navigation document `file`.
///
/// A file that cannot be read as text gives the error of reading its
/// lines, and a text that the parser refuses gives the parser's error.
/// Events that describe no table of contents are invalid. Else the
/// outcome is the table of contents that the events describe.
pub open spec fn is_toc_read(r: Result<Toc, EPubError>, file: InputFile) -> bool {
    if !is_text_file(file) {
        r == Err::<Toc, EPubError>(lines_error(split_lines(file.remaining()), file.faulty()))
    } else {
        match file_events(file) {
            Err(e) => r == Err::<Toc, EPubError>(e),
            Ok(events) => match toc_from(events) {
                Some(toc) => r matches Ok(read) && read@ == toc,
                None => r == Err::<Toc, EPubError>(EPubError::InvalidXml),
            },
        }
    }
}

/// The state of reading a navigation document.
struct TocReader {
    stack: Vec<StartTag>,
    chars: String,
    in_head: bool,
    in_doctitle: bool,
    in_navmap: bool,
    in_navpoint: bool,
    nav_point: Option<NavPoint>,
    doc_title: String,
    nav_points: Vec<NavPoint>,
    meta_entries: Vec<Meta>,
}

impl View for TocReader {
    type V = TocState;

    closed spec fn view(&self) -> TocState {
        TocState {
            stack: tag_views(self.stack@),
            chars: self.chars@,
            in_head: self.in_head,
            in_doctitle: self.in_doctitle,
            in_navmap: self.in_navmap,
            in_navpoint: self.in_navpoint,
            nav_point: nav_point_view(self.nav_point),
            toc: TocView {
                meta_entries: meta_views(self.meta_entries@),
                doc_title: self.doc_title@,
                nav_points: nav_point_views(self.nav_points@),
            },
        }
    }
}

impl TocReader {
    /// A reader before the first event.
    fn new() -> (reader: TocReader)
        ensures
            reader@ == toc_start(),
    {
        let reader = TocReader {
            stack: Vec::new(),
            chars: String::new(),
            in_head: false,
            in_doctitle: false,
            in_navmap: false,
            in_navpoint: false,
            nav_point: None,
            doc_title: String::new(),
            nav_points: Vec::new(),
            meta_entries: Vec::new(),
        };
        assert(reader@.stack =~= Seq::<StartTagView>::empty());
        assert(reader@.toc.meta_entries =~= Seq::<MetaView>::empty());
        assert(reader@.toc.nav_points =~= Seq::<NavPointView>::empty());
        reader
    }

    /// Takes a start tag.
    fn start(&mut self, tag: StartTag) -> (r: Result<(), EPubError>)
        ensures
            match toc_after_start(old(self)@, tag@) {
                Some(state) => r is Ok && final(self)@ == state,
                None => r == Err::<(), EPubError>(EPubError::InvalidXml),
            },
    {
        if same_text(tag.name.as_str(), "head") {
            self.in_head = true;
        } else if same_text(tag.name.as_str(), "navMap") {
            self.in_navmap = true;
        } else if same_text(tag.name.as_str(), "navPoint") && self.in_navmap {
            let point: NavPoint = NavPoint::new(&tag)?;
            self.in_navpoint = true;
            self.nav_point = Some(point);
        } else if same_text(tag.name.as_str(), "docTitle") {
            self.in_doctitle = true;
        }
        self.stack.push(tag);
        self.chars = String::new();
        assert(self@.stack =~= old(self)@.stack.push(tag@));
        Ok(())
    }

    /// Takes the end tag `name`.
    fn end(&mut self, name: &str) -> (r: Result<(), EPubError>)
        ensures
            match toc_after_end(old(self)@, name@) {
                Some(state) => r is Ok && final(self)@ == state,
                None => r == Err::<(), EPubError>(EPubError::InvalidXml),
            },
    {
        let ghost open = self@.stack;
        if let Some(start_tag) = self.stack.pop() {
            assert(self@.stack =~= open.drop_last());
            assert(start_tag@ == open.last());
            if !same_text(start_tag.name.as_str(), name) {
                return Err(EPubError::InvalidXml);
            }
            if same_text(name, "head") {
                self.in_head = false;
            } else if same_text(name, "navMap") {
                self.in_navmap = false;
            } else if same_text(name, "navPoint") {
                self.in_navpoint = false;
                if let Some(np) = self.nav_point.take() {
                    let ghost before = nav_point_views(self.nav_points@);
                    self.nav_points.push(np);
                    assert(nav_point_views(self.nav_points@) =~= before.push(np@));
                }
            } else if same_text(name, "docTitle") {
                self.in_doctitle = false;
            } else if same_text(name, "text") {
                if self.in_navpoint {
                    if let Some(mut np) = self.nav_point.take() {
                        np.add_label(self.chars.as_str());
                        self.nav_point = Some(np);
                    }
                } else if self.in_doctitle {
                    self.doc_title.append(self.chars.as_str());
                }
            } else if same_text(name, "content") && self.in_navpoint {
                if let Some(mut np) = self.nav_point.take() {
                    np.add_content(&start_tag)?;
                    self.nav_point = Some(np);
                }
            } else if same_text(name, "meta") && self.in_head {
                let m: Meta = Meta::new(&start_tag, self.chars.as_str())?;
                let ghost before = meta_views(self.meta_entries@);
                self.meta_entries.push(m);
                assert(meta_views(self.meta_entries@) =~= before.push(m@));
            }
        } else {
            assert(open.len() == 0);
        }
        Ok(())
    }

    /// Takes one event.
    fn event(&mut self, event: XmlEvent) -> (r: Result<(), EPubError>)
        ensures
            match toc_step(old(self)@, event@) {
                Some(state) => r is Ok && final(self)@ == state,
                None => r == Err::<(), EPubError>(EPubError::InvalidXml),
            },
    {
        match event {
            XmlEvent::ElementStart(tag) => self.start(tag),
            XmlEvent::ElementEnd(tag) => self.end(tag.name.as_str()),
            XmlEvent::Characters(s) => {
                if !same_text(s.as_str(), "\n") && !same_text(s.as_str(), "\r\n") {
                    self.chars.append(s.as_str());
                }
                Ok(())
            },
            _ => Ok(()),
        }
    }
}

impl Toc {
    /// read the table of contents from the file
    ///
    /// The file is read as lines of text and parsed, and the table of
    /// contents is built from the events as [`Toc::from_events`] says.
    pub fn read(toc_file: InputFile) -> (r: Result<Toc, EPubError>)
        requires
            toc_file.wf(),
        ensures
            is_toc_read(r, toc_file),
    {
        let events: Vec<XmlEvent> = read_document(toc_file)?;
        Toc::from_events(events)
    }

    /// Builds the table of contents from the events of its document.
    ///
    /// The events are taken one by one, as [`toc_step`] says. The first
    /// event that is refused ends the reading.
    pub fn from_events(events: Vec<XmlEvent>) -> (r: Result<Toc, EPubError>)
        ensures
            match toc_from(event_views(events@)) {
                Some(toc) => r matches Ok(made) && made@ == toc,
                None => r matches Err(e) && e == EPubError::InvalidXml,
            },
    {
        let ghost all = event_views(events@);
        let mut reader = TocReader::new();
        assert(all.skip(0) =~= all);
        for event in it: events
            invariant
                it.seq() == events@,
                all == event_views(events@),
                toc_fold(toc_start(), all) == toc_fold(reader@, all.skip(it.index() as int)),
        {
            let ghost rest = all.skip(it.index() as int);
            assert(rest[0] == event@);
            assert(rest.skip(1) =~= all.skip(it.index() + 1));
            reader.event(event)?;
        }
        Ok(
            Toc {
                meta_entries: reader.meta_entries,
                doc_title: reader.doc_title,
                nav_points: reader.nav_points,
            },
        )
    }
}

} // verus!
