//! The structure of a Sparrow texture atlas: one `TextureAtlas` root whose
//! `SubTexture` children describe the frames. `quick_xml` reads the XML;
//! this module decides what its events mean.
use crate::text::same_text;
use quick_xml::events::{BytesStart, Event};
use quick_xml::Reader;
use vstd::prelude::*;

verus! {

broadcast use vstd::string::group_string_axioms;

#[verifier::external_type_specification]
#[verifier::external_body]
#[verifier::reject_recursive_types(R)]
pub struct ExXmlReader<R>(Reader<R>);

#[verifier::external_type_specification]
#[verifier::external_body]
pub struct ExXmlStart<'a>(BytesStart<'a>);

/// A start or empty-element tag: its name and its attributes, in document
/// order, with their values unescaped.
pub struct XmlTag {
    pub name: Vec<u8>,
    pub attributes: Vec<(Vec<u8>, String)>,
}

/// A tag by its plain values: its name, and its attributes in document
/// order as (key, value) pairs.
pub type TagView = (Seq<u8>, Seq<(Seq<u8>, Seq<char>)>);

impl View for XmlTag {
    type V = TagView;

    open spec fn view(&self) -> TagView {
        (self.name@, self.attributes@.map_values(|a: (Vec<u8>, String)| (a.0@, a.1@)))
    }
}

/// The value of the first attribute called `key`.
pub open spec fn attribute_value(attributes: Seq<(Seq<u8>, Seq<char>)>, key: Seq<u8>) -> Option<Seq<char>>
    decreases attributes.len(),
{
    if attributes.len() == 0 {
        None
    } else if attributes[0].0 == key {
        Some(attributes[0].1)
    } else {
        attribute_value(attributes.drop_first(), key)
    }
}

fn same_bytes(a: &[u8], b: &[u8]) -> (r: bool)
    ensures
        r == (a@ == b@),
{
    if a.len() != b.len() {
        return false;
    }
    let mut i: usize = 0;
    while i < a.len()
        invariant
            i <= a@.len() == b@.len(),
            forall|j: int| 0 <= j < i ==> a@[j] == b@[j],
        decreases a@.len() - i,
    {
        if a[i] != b[i] {
            return false;
        }
        i = i + 1;
    }
    assert(a@ =~= b@);
    true
}

impl XmlTag {
    /// The value of the first attribute called `key`.
    pub fn attribute(&self, key: &str) -> (r: Option<&str>)
        ensures
            r matches Some(v) ==> attribute_value(self@.1, vstd::utf8::encode_utf8(key@)) == Some(v@),
            r is None ==> attribute_value(self@.1, vstd::utf8::encode_utf8(key@)) is None,
    {
        let k = key.as_bytes();
        let mut i: usize = 0;
        let ghost a = self@.1;
        assert(a.skip(0) =~= a);
        while i < self.attributes.len()
            invariant
                i <= self.attributes@.len(),
                a == self@.1,
                a.len() == self.attributes@.len(),
                k@ == vstd::utf8::encode_utf8(key@),
                attribute_value(a, k@) == attribute_value(a.skip(i as int), k@),
            decreases self.attributes@.len() - i,
        {
            assert(a.skip(i as int).drop_first() =~= a.skip(i + 1));
            assert(a.skip(i as int)[0] == (self.attributes@[i as int].0@, self.attributes@[i as int].1@));
            if same_bytes(self.attributes[i].0.as_slice(), k) {
                return Some(self.attributes[i].1.as_str());
            }
            i = i + 1;
        }
        None
    }

    /// Whether the tag's name is `name`.
    pub fn is_named(&self, name: &str) -> (r: bool)
        ensures
            r == (self@.0 == vstd::utf8::encode_utf8(name@)),
    {
        same_bytes(self.name.as_slice(), name.as_bytes())
    }
}

/// What the XML reader reports next.
pub enum XmlEvent {
    Start(XmlTag),
    Empty(XmlTag),
    End,
    Text(Vec<u8>),
    DocType,
    Eof,
    Other,
}

/// An event by its plain values.
pub enum EventView {
    Start(TagView),
    Empty(TagView),
    End,
    Text(Seq<u8>),
    DocType,
    Eof,
    Other,
}

impl View for XmlEvent {
    type V = EventView;

    open spec fn view(&self) -> EventView {
        match self {
            XmlEvent::Start(t) => EventView::Start(t@),
            XmlEvent::Empty(t) => EventView::Empty(t@),
            XmlEvent::End => EventView::End,
            XmlEvent::Text(b) => EventView::Text(b@),
            XmlEvent::DocType => EventView::DocType,
            XmlEvent::Eof => EventView::Eof,
            XmlEvent::Other => EventView::Other,
        }
    }
}

/// `u8::is_ascii_whitespace`.
pub open spec fn is_ascii_space(b: u8) -> bool {
    b == 0x20 || b == 0x09 || b == 0x0a || b == 0x0c || b == 0x0d
}

/// Some byte of `text` is not ASCII white space.
pub open spec fn has_content(text: Seq<u8>) -> bool {
    exists|i: int| 0 <= i < text.len() && !is_ascii_space(#[trigger] text[i])
}

fn content(text: &Vec<u8>) -> (r: bool)
    ensures
        r == has_content(text@),
{
    let mut i: usize = 0;
    while i < text.len()
        invariant
            i <= text@.len(),
            forall|j: int| 0 <= j < i ==> is_ascii_space(#[trigger] text@[j]),
        decreases text@.len() - i,
    {
        let b = text[i];
        if !(b == 0x20 || b == 0x09 || b == 0x0a || b == 0x0c || b == 0x0d) {
            return true;
        }
        i = i + 1;
    }
    false
}

/// The outcome of one event.
pub enum SparrowStep {
    /// Nothing to do.
    Continue,
    /// The event is a frame: a `SubTexture` directly under the root.
    SubTexture,
    /// The atlas is complete; its image path.
    Done(String),
    /// The atlas is malformed.
    Fail(String),
}

/// The outcome of one event, by its plain values.
pub enum StepView {
    Continue,
    SubTexture,
    Done(Seq<char>),
    Fail(Seq<char>),
}

impl View for SparrowStep {
    type V = StepView;

    open spec fn view(&self) -> StepView {
        match self {
            SparrowStep::Continue => StepView::Continue,
            SparrowStep::SubTexture => StepView::SubTexture,
            SparrowStep::Done(p) => StepView::Done(p@),
            SparrowStep::Fail(m) => StepView::Fail(m@),
        }
    }
}

/// Where a Sparrow atlas reader stands: how deep inside elements, whether
/// the root has been closed, and the root's image path once it was seen.
pub struct SparrowState {
    pub depth: usize,
    pub closed: bool,
    pub image: Option<String>,
}

/// A reader's standing, by its plain values.
pub struct SparrowView {
    pub depth: nat,
    pub closed: bool,
    pub image: Option<Seq<char>>,
}

impl View for SparrowState {
    type V = SparrowView;

    open spec fn view(&self) -> SparrowView {
        SparrowView {
            depth: self.depth as nat,
            closed: self.closed,
            image: match self.image {
                Some(i) => Some(i@),
                None => None,
            },
        }
    }
}

/// Before the first event: outside any element, no root seen.
pub open spec fn initial_view() -> SparrowView {
    SparrowView { depth: 0, closed: false, image: None }
}

/// The tag's name is `TextureAtlas`.
pub open spec fn is_atlas_tag(t: TagView) -> bool {
    t.0 == vstd::utf8::encode_utf8("TextureAtlas"@)
}

/// The tag's name is `SubTexture`.
pub open spec fn is_frame_tag(t: TagView) -> bool {
    t.0 == vstd::utf8::encode_utf8("SubTexture"@)
}

/// The image path a root tag gives: its `imagePath`, or nothing.
pub open spec fn root_image(t: TagView) -> Seq<char> {
    match attribute_value(t.1, vstd::utf8::encode_utf8("imagePath"@)) {
        Some(v) => v,
        None => Seq::empty(),
    }
}

/// The reader's standing after the tag `t` opened at `st` (and, if
/// `empty`, closed again), with the outcome: outside the root only one
/// `TextureAtlas` may open; inside it a tag goes one level deeper, and a
/// `SubTexture` directly under the root is a frame.
pub open spec fn opened(st: SparrowView, t: TagView, empty: bool) -> (SparrowView, StepView) {
    if st.depth == 0 {
        if st.closed || st.image is Some || !is_atlas_tag(t) {
            (st, StepView::Fail("expected one TextureAtlas root"@))
        } else {
            (
                SparrowView { depth: if empty { 0 } else { 1 }, closed: empty, image: Some(root_image(t)) },
                StepView::Continue,
            )
        }
    } else {
        (
            SparrowView { depth: if empty { st.depth } else { st.depth + 1 }, closed: st.closed, image: st.image },
            if st.depth == 1 && is_frame_tag(t) { StepView::SubTexture } else { StepView::Continue },
        )
    }
}

/// The reader's standing after `event` at `st`, with the outcome.
pub open spec fn advance(st: SparrowView, event: EventView) -> (SparrowView, StepView) {
    match event {
        EventView::Start(t) => opened(st, t, false),
        EventView::Empty(t) => opened(st, t, true),
        EventView::End => if st.depth == 0 {
            (st, StepView::Fail("unexpected XML closing tag"@))
        } else {
            (
                SparrowView { depth: (st.depth - 1) as nat, closed: st.closed || st.depth == 1, image: st.image },
                StepView::Continue,
            )
        },
        EventView::Text(b) => (st, if st.depth == 0 && has_content(b) {
            StepView::Fail("text outside TextureAtlas"@)
        } else {
            StepView::Continue
        }),
        EventView::DocType => (st, StepView::Fail("DTD is not supported in Sparrow atlases"@)),
        EventView::Eof => (st, if !st.closed || st.depth != 0 {
            StepView::Fail("incomplete TextureAtlas"@)
        } else {
            match st.image {
                Some(i) => StepView::Done(i),
                None => StepView::Fail("missing TextureAtlas"@),
            }
        }),
        EventView::Other => (st, StepView::Continue),
    }
}

impl SparrowState {
    pub fn new() -> (r: Self)
        ensures
            r@ == initial_view(),
    {
        SparrowState { depth: 0, closed: false, image: None }
    }

    fn open_tag(&mut self, tag: &XmlTag, empty: bool) -> (r: SparrowStep)
        requires
            old(self).depth < usize::MAX,
        ensures
            (final(self)@, r@) == opened(old(self)@, tag@, empty),
    {
        if self.depth == 0 {
            if self.closed || self.image.is_some() || !tag.is_named("TextureAtlas") {
                return SparrowStep::Fail("expected one TextureAtlas root".to_owned());
            }
            let image = match tag.attribute("imagePath") {
                Some(v) => v.to_owned(),
                None => String::new(),
            };
            self.image = Some(image);
            if empty {
                self.closed = true;
            } else {
                self.depth = 1;
            }
            return SparrowStep::Continue;
        }
        let r = if self.depth == 1 && tag.is_named("SubTexture") {
            SparrowStep::SubTexture
        } else {
            SparrowStep::Continue
        };
        if !empty {
            self.depth = self.depth + 1;
        }
        r
    }

    /// Takes in one event of the document.
    pub fn step(&mut self, event: &XmlEvent) -> (r: SparrowStep)
        requires
            old(self).depth < usize::MAX,
        ensures
            (final(self)@, r@) == advance(old(self)@, event@),
    {
        match event {
            XmlEvent::Start(tag) => self.open_tag(tag, false),
            XmlEvent::Empty(tag) => self.open_tag(tag, true),
            XmlEvent::End => {
                if self.depth == 0 {
                    return SparrowStep::Fail("unexpected XML closing tag".to_owned());
                }
                self.depth = self.depth - 1;
                if self.depth == 0 {
                    self.closed = true;
                }
                SparrowStep::Continue
            },
            XmlEvent::Text(text) => {
                if self.depth == 0 && content(text) {
                    SparrowStep::Fail("text outside TextureAtlas".to_owned())
                } else {
                    SparrowStep::Continue
                }
            },
            XmlEvent::DocType => SparrowStep::Fail("DTD is not supported in Sparrow atlases".to_owned()),
            XmlEvent::Eof => {
                if !self.closed || self.depth != 0 {
                    return SparrowStep::Fail("incomplete TextureAtlas".to_owned());
                }
                match &self.image {
                    Some(i) => SparrowStep::Done(i.clone()),
                    None => SparrowStep::Fail("missing TextureAtlas".to_owned()),
                }
            },
            XmlEvent::Other => SparrowStep::Continue,
        }
    }
}

/// An event as the reader reports it, by its plain values: tags still
/// unread, text by its raw bytes, an error by its message.
pub enum ReadView {
    Start,
    Empty,
    End,
    Text(Seq<u8>),
    DocType,
    Eof,
    Other,
    Failed(Seq<char>),
}

/// The `k`-th event (counting from 0) that `quick_xml::Reader::read_event`
/// reports on a reader made by `Reader::from_str(xml)`.
pub uninterp spec fn xml_event_at(xml: Seq<char>, k: nat) -> ReadView;

/// What `read_tag` finds in the tag of the `k`-th event of `xml`, a start
/// or empty-element tag: its name and unescaped attributes, or the message
/// of `quick_xml`'s error.
pub uninterp spec fn xml_tag_at(xml: Seq<char>, k: nat) -> Result<TagView, Seq<char>>;

/// The `k`-th event of `xml` with its tag read, or the first error of the
/// reader.
pub open spec fn document_event(xml: Seq<char>, k: nat) -> Result<EventView, Seq<char>> {
    match xml_event_at(xml, k) {
        ReadView::Start => match xml_tag_at(xml, k) {
            Ok(t) => Ok(EventView::Start(t)),
            Err(m) => Err(m),
        },
        ReadView::Empty => match xml_tag_at(xml, k) {
            Ok(t) => Ok(EventView::Empty(t)),
            Err(m) => Err(m),
        },
        ReadView::End => Ok(EventView::End),
        ReadView::Text(b) => Ok(EventView::Text(b)),
        ReadView::DocType => Ok(EventView::DocType),
        ReadView::Eof => Ok(EventView::Eof),
        ReadView::Other => Ok(EventView::Other),
        ReadView::Failed(m) => Err(m),
    }
}

/// A start or empty-element tag still unread: the tag of event `index` of
/// `xml`. Only `read_event` makes one.
struct StartTag<'a> {
    tag: BytesStart<'a>,
    xml: &'a str,
    index: usize,
}

/// An event as `quick_xml` hands it out: tags still unread, text as its
/// raw bytes.
enum RawEvent<'a> {
    Start(StartTag<'a>),
    Empty(StartTag<'a>),
    End,
    Text(Vec<u8>),
    DocType,
    Eof,
    Other,
}

/// A reader over `xml` that has reported `count` events. Only
/// `XmlCursor::new` and `XmlCursor::next` set its fields, so `count` is
/// always the number of events its reader has reported.
struct XmlCursor<'a> {
    reader: Reader<&'a [u8]>,
    xml: &'a str,
    count: usize,
}

/// `r` is what reading event `k` of `xml` reports, when that event is
/// `event`.
spec fn reads_as(r: Result<RawEvent, String>, event: ReadView, xml: Seq<char>, k: nat) -> bool {
    match event {
        ReadView::Start => r matches Ok(RawEvent::Start(t)) && t.xml@ == xml && t.index == k,
        ReadView::Empty => r matches Ok(RawEvent::Empty(t)) && t.xml@ == xml && t.index == k,
        ReadView::End => r matches Ok(RawEvent::End),
        ReadView::Text(b) => r matches Ok(RawEvent::Text(v)) && v@ == b,
        ReadView::DocType => r matches Ok(RawEvent::DocType),
        ReadView::Eof => r matches Ok(RawEvent::Eof),
        ReadView::Other => r matches Ok(RawEvent::Other),
        ReadView::Failed(m) => r matches Err(e) && e@ == m,
    }
}

/// `quick_xml::Reader::from_str`: a reader over `xml` with the default
/// configuration.
#[verifier::external_body]
fn xml_reader<'a>(xml: &'a str) -> Reader<&'a [u8]> {
    Reader::from_str(xml)
}

/// `quick_xml::Reader::read_event` on the cursor's reader: the next event
/// of the document, `xml_event_at(xml, count)`, or the message of the
/// reader's error. A tag comes with the document and its event's number.
/// The cursor's text and count are left as they are.
#[verifier::external_body]
fn read_event<'a>(cursor: &mut XmlCursor<'a>) -> (r: Result<RawEvent<'a>, String>)
    ensures
        final(cursor).xml == old(cursor).xml,
        final(cursor).count == old(cursor).count,
        reads_as(r, xml_event_at(old(cursor).xml@, old(cursor).count as nat), old(cursor).xml@, old(cursor).count as nat),
{
    let (xml, index) = (cursor.xml, cursor.count);
    match cursor.reader.read_event() {
        Err(e) => Err(e.to_string()),
        Ok(Event::Start(tag)) => Ok(RawEvent::Start(StartTag { tag, xml, index })),
        Ok(Event::Empty(tag)) => Ok(RawEvent::Empty(StartTag { tag, xml, index })),
        Ok(Event::End(_)) => Ok(RawEvent::End),
        Ok(Event::Text(t)) => Ok(RawEvent::Text(t.into_inner().into_owned())),
        Ok(Event::DocType(_)) => Ok(RawEvent::DocType),
        Ok(Event::Eof) => Ok(RawEvent::Eof),
        Ok(_) => Ok(RawEvent::Other),
    }
}

/// The name and the attributes of a tag, through `BytesStart::name`,
/// `BytesStart::attributes` and `Attribute::decode_and_unescape_value`
/// with the reader's decoder: `xml_tag_at` of the tag's event; the message
/// of `quick_xml`'s error where an attribute is malformed or repeated.
#[verifier::external_body]
fn read_tag<'a>(start: &StartTag<'a>, cursor: &XmlCursor<'a>) -> (r: Result<XmlTag, String>)
    ensures
        match xml_tag_at(start.xml@, start.index as nat) {
            Ok(t) => r matches Ok(tag) && tag@ == t,
            Err(m) => r matches Err(e) && e@ == m,
        },
{
    let mut attributes = Vec::new();
    for a in start.tag.attributes() {
        let a = a.map_err(|e| e.to_string())?;
        let value = a.decode_and_unescape_value(cursor.reader.decoder()).map_err(|e| e.to_string())?;
        attributes.push((a.key.into_inner().to_vec(), value.into_owned()));
    }
    Ok(XmlTag { name: start.tag.name().into_inner().to_vec(), attributes })
}

impl<'a> XmlCursor<'a> {
    /// The text read, and the number of events reported so far.
    spec fn position(&self) -> (Seq<char>, nat) {
        (self.xml@, self.count as nat)
    }

    /// A reader at the start of `xml`.
    fn new(xml: &'a str) -> (r: Self)
        ensures
            r.position() == (xml@, 0nat),
    {
        XmlCursor { reader: xml_reader(xml), xml, count: 0 }
    }

    /// The next event of the document, with its tag read, or the first
    /// error of the reader.
    fn next(&mut self) -> (r: Result<XmlEvent, String>)
        requires
            old(self).position().1 < usize::MAX,
        ensures
            final(self).position() == (old(self).position().0, old(self).position().1 + 1),
            match document_event(old(self).position().0, old(self).position().1) {
                Ok(ev) => r matches Ok(e) && e@ == ev,
                Err(m) => r matches Err(e) && e@ == m,
            },
    {
        let raw = read_event(self);
        let r = match raw {
            Err(e) => Err(e),
            Ok(RawEvent::Start(t)) => match read_tag(&t, self) {
                Ok(tag) => Ok(XmlEvent::Start(tag)),
                Err(e) => Err(e),
            },
            Ok(RawEvent::Empty(t)) => match read_tag(&t, self) {
                Ok(tag) => Ok(XmlEvent::Empty(tag)),
                Err(e) => Err(e),
            },
            Ok(RawEvent::End) => Ok(XmlEvent::End),
            Ok(RawEvent::Text(t)) => Ok(XmlEvent::Text(t)),
            Ok(RawEvent::DocType) => Ok(XmlEvent::DocType),
            Ok(RawEvent::Eof) => Ok(XmlEvent::Eof),
            Ok(RawEvent::Other) => Ok(XmlEvent::Other),
        };
        self.count = self.count + 1;
        r
    }
}

/// `frame` can turn some tag whose plain values are `t` into `result`.
pub open spec fn frame_gives<E, F: Fn(&XmlTag) -> Result<E, String>>(frame: F, t: TagView, result: Result<E, String>) -> bool {
    exists|tag: &XmlTag| tag@ == t && #[trigger] frame.ensures((tag,), result)
}

/// The tag of a start or empty-element event.
pub open spec fn event_tag(event: EventView) -> TagView {
    match event {
        EventView::Start(t) => t,
        EventView::Empty(t) => t,
        _ => arbitrary(),
    }
}

/// What taking in `event` does to the frames read so far, given the
/// outcome `s` of `advance` for it: a frame becomes what `frame` makes of
/// its tag, or that failure ends the atlas; a finished atlas ends with its
/// image path, a malformed one with the error.
pub open spec fn took_event<E, F: Fn(&XmlTag) -> Result<E, String>>(
    frame: F,
    event: EventView,
    s: StepView,
    before: Seq<E>,
    after: Seq<E>,
    r: Option<Result<String, String>>,
) -> bool {
    match s {
        StepView::Continue => r is None && after == before,
        StepView::SubTexture => match r {
            None => exists|e: E| after == before.push(e) && frame_gives(frame, event_tag(event), Ok::<E, String>(e)),
            Some(Err(m)) => after == before && frame_gives(frame, event_tag(event), Err::<E, String>(m)),
            Some(Ok(_)) => false,
        },
        StepView::Done(p) => r matches Some(Ok(q)) && q@ == p && after == before,
        StepView::Fail(m) => r matches Some(Err(e)) && e@ == m && after == before,
    }
}

/// Takes in one event of a Sparrow atlas, with the frames read so far:
/// `None` while the atlas goes on, else its image path or the error that
/// ends it (see `advance` and `took_event`).
pub fn take_event<E, F: Fn(&XmlTag) -> Result<E, String>>(
    state: &mut SparrowState,
    entries: &mut Vec<E>,
    event: &XmlEvent,
    frame: &F,
) -> (r: Option<Result<String, String>>)
    requires
        old(state).depth < usize::MAX,
        forall|t: &XmlTag| frame.requires((t,)),
    ensures
        final(state)@ == advance(old(state)@, event@).0,
        took_event(*frame, event@, advance(old(state)@, event@).1, old(entries)@, final(entries)@, r),
{
    let s = state.step(event);
    let r = match s {
        SparrowStep::Continue => None,
        SparrowStep::SubTexture => {
            let made = match event {
                XmlEvent::Start(t) => frame(t),
                XmlEvent::Empty(t) => frame(t),
                _ => {
                    assert(false);
                    return None;
                },
            };
            match made {
                Ok(e) => {
                    let ghost before = entries@;
                    entries.push(e);
                    assert(entries@ == before.push(e) && frame_gives(*frame, event_tag(event@), Ok::<E, String>(e)));
                    None
                },
                Err(m) => {
                    assert(frame_gives(*frame, event_tag(event@), Err::<E, String>(m)));
                    Some(Err(m))
                },
            }
        },
        SparrowStep::Done(image) => Some(Ok(image)),
        SparrowStep::Fail(m) => Some(Err(m)),
    };
    r
}

/// The most events `parse_sparrow` reads of `xml`: one more than its
/// length in bytes (every event but the end of the document takes at least
/// one byte), within `usize`.
pub open spec fn event_limit(xml: Seq<char>) -> nat {
    let n = vstd::utf8::encode_utf8(xml).len() as usize;
    if n < usize::MAX {
        (n + 1) as nat
    } else {
        usize::MAX as nat
    }
}

/// What reading the Sparrow atlas `xml` from its `k`-th event on gives, at
/// standing `st` with the frames `entries` read so far, when `frame` gives
/// `outs` for the frames met from there, in order; `None` when `outs` does
/// not fit (a result `frame` cannot give for that tag, or too many or too
/// few results). At most `fuel` more events are read; an atlas not finished
/// by then is incomplete.
pub open spec fn sparrow_run<E, F: Fn(&XmlTag) -> Result<E, String>>(
    frame: F,
    xml: Seq<char>,
    k: nat,
    st: SparrowView,
    entries: Seq<E>,
    outs: Seq<Result<E, String>>,
    fuel: nat,
) -> Option<Result<(Seq<char>, Seq<E>), Seq<char>>>
    decreases fuel,
{
    if fuel == 0 {
        if outs.len() == 0 {
            Some(Err("incomplete TextureAtlas"@))
        } else {
            None
        }
    } else {
        match document_event(xml, k) {
            Err(m) => if outs.len() == 0 {
                Some(Err(m))
            } else {
                None
            },
            Ok(ev) => {
                let next = advance(st, ev).0;
                match advance(st, ev).1 {
                    StepView::Continue => sparrow_run(frame, xml, k + 1, next, entries, outs, (fuel - 1) as nat),
                    StepView::SubTexture => if outs.len() == 0 || !frame_gives(frame, event_tag(ev), outs[0]) {
                        None
                    } else {
                        match outs[0] {
                            Ok(e) => sparrow_run(frame, xml, k + 1, next, entries.push(e), outs.drop_first(), (fuel - 1) as nat),
                            Err(m) => if outs.len() == 1 {
                                Some(Err(m@))
                            } else {
                                None
                            },
                        }
                    },
                    StepView::Done(p) => if outs.len() == 0 {
                        Some(Ok((p, entries)))
                    } else {
                        None
                    },
                    StepView::Fail(m) => if outs.len() == 0 {
                        Some(Err(m))
                    } else {
                        None
                    },
                }
            },
        }
    }
}

/// A parse result by its plain values.
pub open spec fn parse_view<E>(r: Result<(String, Vec<E>), String>) -> Result<(Seq<char>, Seq<E>), Seq<char>> {
    match r {
        Ok((p, es)) => Ok((p@, es@)),
        Err(m) => Err(m@),
    }
}

/// `parse_sparrow` of `xml` may give `r`: `frame` can give results for the
/// frames met that make the document's events lead to `r`.
pub open spec fn sparrow_result<E, F: Fn(&XmlTag) -> Result<E, String>>(
    frame: F,
    xml: Seq<char>,
    r: Result<(String, Vec<E>), String>,
) -> bool {
    exists|outs: Seq<Result<E, String>>|
        #[trigger] sparrow_run(frame, xml, 0, initial_view(), Seq::empty(), outs, event_limit(xml)) == Some(parse_view(r))
}

/// Reads a Sparrow atlas: its image path, and what `frame` makes of each
/// `SubTexture` directly under the root, in document order. The first error
/// met, of the XML reader, of `frame` or of the atlas's structure, is
/// returned: the document's events (`document_event`) are taken in one by
/// one as `advance` says, until the atlas ends (`sparrow_run`).
pub fn parse_sparrow<E, F: Fn(&XmlTag) -> Result<E, String>>(xml: &str, frame: F) -> (r: Result<(String, Vec<E>), String>)
    requires
        forall|t: &XmlTag| frame.requires((t,)),
    ensures
        sparrow_result(frame, xml@, r),
{
    let mut cursor = XmlCursor::new(xml);
    let mut state = SparrowState::new();
    let mut entries: Vec<E> = Vec::new();
    let limit: usize = if xml.len() < usize::MAX {
        xml.len() + 1
    } else {
        usize::MAX
    };
    let ghost fuel = event_limit(xml@);
    let ghost used: Seq<Result<E, String>> = Seq::empty();
    assert(limit == fuel);
    let mut i: usize = 0;
    while i < limit
        invariant
            i <= limit,
            limit == fuel,
            fuel == event_limit(xml@),
            state.depth <= i,
            cursor.position() == (xml@, i as nat),
            forall|t: &XmlTag| frame.requires((t,)),
            forall|rest: Seq<Result<E, String>>|
                (#[trigger] sparrow_run(frame, xml@, i as nat, state@, entries@, rest, (fuel - i) as nat)) is Some
                    ==> sparrow_run(frame, xml@, 0, initial_view(), Seq::empty(), used + rest, fuel)
                    == sparrow_run(frame, xml@, i as nat, state@, entries@, rest, (fuel - i) as nat),
        decreases limit - i,
    {
        let ghost st0 = state@;
        let ghost es0 = entries@;
        let ghost used0 = used;
        let event = match cursor.next() {
            Ok(e) => e,
            Err(e) => {
                proof {
                    assert(sparrow_run(frame, xml@, i as nat, st0, es0, Seq::empty(), (fuel - i) as nat) == Some(parse_view::<E>(Err(e))));
                    assert(used0 + Seq::<Result<E, String>>::empty() =~= used0);
                }
                return Err(e);
            },
        };
        let outcome = take_event(&mut state, &mut entries, &event, &frame);
        let ghost s = advance(st0, event@).1;
        proof {
            assert(document_event(xml@, i as nat) == Ok::<EventView, Seq<char>>(event@));
            assert(state.depth <= st0.depth + 1);
        }
        match outcome {
            None => {
                proof {
                    if s is SubTexture {
                        let e = choose|e: E| entries@ == es0.push(e) && frame_gives(frame, event_tag(event@), Ok::<E, String>(e));
                        used = used0.push(Ok::<E, String>(e));
                        assert forall|rest: Seq<Result<E, String>>|
                            (#[trigger] sparrow_run(frame, xml@, (i + 1) as nat, state@, entries@, rest, (fuel - (i + 1)) as nat)) is Some
                            implies sparrow_run(frame, xml@, 0, initial_view(), Seq::empty(), used + rest, fuel)
                            == sparrow_run(frame, xml@, (i + 1) as nat, state@, entries@, rest, (fuel - (i + 1)) as nat) by {
                            let whole = seq![Ok::<E, String>(e)] + rest;
                            assert(whole[0] == Ok::<E, String>(e));
                            assert(whole.drop_first() =~= rest);
                            assert(sparrow_run(frame, xml@, i as nat, st0, es0, whole, (fuel - i) as nat)
                                == sparrow_run(frame, xml@, (i + 1) as nat, state@, entries@, rest, (fuel - (i + 1)) as nat));
                            assert(used0 + whole =~= used + rest);
                        }
                    } else {
                        assert forall|rest: Seq<Result<E, String>>|
                            (#[trigger] sparrow_run(frame, xml@, (i + 1) as nat, state@, entries@, rest, (fuel - (i + 1)) as nat)) is Some
                            implies sparrow_run(frame, xml@, 0, initial_view(), Seq::empty(), used + rest, fuel)
                            == sparrow_run(frame, xml@, (i + 1) as nat, state@, entries@, rest, (fuel - (i + 1)) as nat) by {
                            assert(sparrow_run(frame, xml@, i as nat, st0, es0, rest, (fuel - i) as nat)
                                == sparrow_run(frame, xml@, (i + 1) as nat, state@, entries@, rest, (fuel - (i + 1)) as nat));
                        }
                    }
                }
            },
            Some(Ok(image)) => {
                proof {
                    assert(sparrow_run(frame, xml@, i as nat, st0, es0, Seq::empty(), (fuel - i) as nat) == Some(parse_view(Ok::<(String, Vec<E>), String>((image, entries)))));
                    assert(used0 + Seq::<Result<E, String>>::empty() =~= used0);
                }
                return Ok((image, entries));
            },
            Some(Err(e)) => {
                proof {
                    if s is SubTexture {
                        let whole = seq![Err::<E, String>(e)];
                        assert(sparrow_run(frame, xml@, i as nat, st0, es0, whole, (fuel - i) as nat) == Some(parse_view::<E>(Err(e))));
                        assert(used0 + whole =~= used0 + whole);
                        assert(sparrow_run(frame, xml@, 0, initial_view(), Seq::empty(), used0 + whole, fuel) == Some(parse_view::<E>(Err(e))));
                    } else {
                        assert(sparrow_run(frame, xml@, i as nat, st0, es0, Seq::empty(), (fuel - i) as nat) == Some(parse_view::<E>(Err(e))));
                        assert(used0 + Seq::<Result<E, String>>::empty() =~= used0);
                    }
                }
                return Err(e);
            },
        }
        i = i + 1;
    }
    let e = "incomplete TextureAtlas".to_owned();
    proof {
        assert(sparrow_run(frame, xml@, i as nat, state@, entries@, Seq::empty(), (fuel - i) as nat) == Some(parse_view::<E>(Err(e))));
        assert(used + Seq::<Result<E, String>>::empty() =~= used);
    }
    Err(e)
}

} // verus!
