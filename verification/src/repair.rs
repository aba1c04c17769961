//! Repairs of raw WordprocessingML: `xml:space="preserve"` on text runs whose
//! text starts or ends with a space or tab, and renumbering of `w:id` values
//! that overflow the 31-bit range Word accepts.
//!
//! Both work on the event stream of `quick_xml`'s reader and write the result
//! back through `quick_xml`'s writer. The library sees the stream as
//! [`XmlEvent`]s: start and empty tags with their name and well-formed
//! attributes (those the reader reports as malformed or duplicated are
//! skipped), text with its raw (escaped) bytes, and every other event as a
//! placeholder. The events are planned first; then a second reader goes over
//! the same bytes and each event is either copied to the writer as read or,
//! where the plan edits a tag, replaced by a tag written from its new
//! content: the name followed, for each attribute, by a space, the key, `="`,
//! the value and `"`, the layout of `BytesStart::push_attribute`.

use std::collections::HashSet;

use quick_xml::events::{BytesStart, Event};
use quick_xml::name::QName;
use quick_xml::{Reader, Writer};
use vstd::prelude::*;
use vstd::utf8::{decode_utf8, valid_utf8};

use crate::bytes::{extend_range, utf8_error_message, utf8_error_text, utf8_str};
use crate::error::{DocliError, ErrorCode};
use crate::markup::{decimal, push_decimal};
use crate::text::{chars_of, string_from_chars};
use crate::units::{parse_unsigned, parse_unsigned_chars};
use crate::xml::opt_string_view;

verus! {

broadcast use vstd::std_specs::hash::group_hash_axioms;

/// A start or empty tag: its qualified name and its well-formed attributes
/// (key, raw value) in order.
pub struct XmlTag {
    pub name: Vec<u8>,
    pub attrs: Vec<(Vec<u8>, Vec<u8>)>,
}

/// One event of the reader.
pub enum XmlEvent {
    Start(XmlTag),
    Empty(XmlTag),
    /// Text, as raw escaped bytes.
    Text(Vec<u8>),
    /// An end tag, comment, CDATA section, declaration, processing
    /// instruction or doctype.
    Other,
}

pub struct TagView {
    pub name: Seq<u8>,
    pub attrs: Seq<(Seq<u8>, Seq<u8>)>,
}

pub enum EventView {
    Start(TagView),
    Empty(TagView),
    Text(Seq<u8>),
    Other,
}

pub open spec fn attrs_view(v: Seq<(Vec<u8>, Vec<u8>)>) -> Seq<(Seq<u8>, Seq<u8>)> {
    v.map_values(|a: (Vec<u8>, Vec<u8>)| (a.0@, a.1@))
}

impl View for XmlTag {
    type V = TagView;

    open spec fn view(&self) -> TagView {
        TagView { name: self.name@, attrs: attrs_view(self.attrs@) }
    }
}

impl View for XmlEvent {
    type V = EventView;

    open spec fn view(&self) -> EventView {
        match self {
            XmlEvent::Start(t) => EventView::Start(t@),
            XmlEvent::Empty(t) => EventView::Empty(t@),
            XmlEvent::Text(b) => EventView::Text(b@),
            XmlEvent::Other => EventView::Other,
        }
    }
}

pub open spec fn events_view(v: Seq<XmlEvent>) -> Seq<EventView> {
    v.map_values(|e: XmlEvent| e@)
}

pub open spec fn edits_view(v: Seq<Option<Vec<u8>>>) -> Seq<Option<Seq<u8>>> {
    v.map_values(
        |e: Option<Vec<u8>>|
            match e {
                Some(b) => Some(b@),
                None => None,
            },
    )
}

/// A start or empty tag as the reader gives it: its qualified name and each
/// of its attributes in order, as key and raw value, or `None` where the
/// reader reports the attribute as malformed.
pub struct RawTag {
    pub name: Vec<u8>,
    pub attrs: Vec<Option<(Vec<u8>, Vec<u8>)>>,
}

/// One event as the reader gives it.
pub enum RawEvent {
    Start(RawTag),
    Empty(RawTag),
    Text(Vec<u8>),
    Other,
}

pub struct RawTagView {
    pub name: Seq<u8>,
    pub attrs: Seq<Option<(Seq<u8>, Seq<u8>)>>,
}

pub enum RawEventView {
    Start(RawTagView),
    Empty(RawTagView),
    Text(Seq<u8>),
    Other,
}

pub open spec fn raw_attrs_view(v: Seq<Option<(Vec<u8>, Vec<u8>)>>) -> Seq<Option<(Seq<u8>, Seq<u8>)>> {
    v.map_values(
        |a: Option<(Vec<u8>, Vec<u8>)>|
            match a {
                Some(p) => Some((p.0@, p.1@)),
                None => None,
            },
    )
}

impl View for RawTag {
    type V = RawTagView;

    open spec fn view(&self) -> RawTagView {
        RawTagView { name: self.name@, attrs: raw_attrs_view(self.attrs@) }
    }
}

impl View for RawEvent {
    type V = RawEventView;

    open spec fn view(&self) -> RawEventView {
        match self {
            RawEvent::Start(t) => RawEventView::Start(t@),
            RawEvent::Empty(t) => RawEventView::Empty(t@),
            RawEvent::Text(b) => RawEventView::Text(b@),
            RawEvent::Other => RawEventView::Other,
        }
    }
}

/// The well-formed attributes among `a`, in order: malformed ones are
/// skipped.
pub open spec fn well_formed_attrs(a: Seq<Option<(Seq<u8>, Seq<u8>)>>) -> Seq<(Seq<u8>, Seq<u8>)>
    decreases a.len(),
{
    if a.len() == 0 {
        Seq::empty()
    } else {
        well_formed_attrs(a.drop_last()) + match a.last() {
            Some(p) => seq![p],
            None => Seq::empty(),
        }
    }
}

/// An event as the repairs see it: a tag keeps its well-formed attributes.
pub open spec fn clean_event(e: RawEventView) -> EventView {
    match e {
        RawEventView::Start(t) => EventView::Start(TagView { name: t.name, attrs: well_formed_attrs(t.attrs) }),
        RawEventView::Empty(t) => EventView::Empty(TagView { name: t.name, attrs: well_formed_attrs(t.attrs) }),
        RawEventView::Text(b) => EventView::Text(b),
        RawEventView::Other => EventView::Other,
    }
}

pub open spec fn clean_events(s: Seq<RawEventView>) -> Seq<EventView> {
    s.map_values(|e: RawEventView| clean_event(e))
}

/// The events that `quick_xml::Reader::read_event_into` reads from `xml`, up
/// to the end of input or the first error, and the text of that error. A
/// tag's attributes are those its `attributes()` iterator gives, each item
/// an attribute or, for an `Err`, `None`.
pub uninterp spec fn quick_xml_events(xml: Seq<u8>) -> (Seq<RawEventView>, Option<Seq<char>>);

/// The events of `xml` as the repairs see them.
pub open spec fn xml_events(xml: Seq<u8>) -> Seq<EventView> {
    clean_events(quick_xml_events(xml).0)
}

/// What `BytesText::unescape` gives for raw text: the decoded and unescaped
/// text, or the text of its error.
pub uninterp spec fn quick_xml_unescape(raw: Seq<u8>) -> Result<Seq<char>, Seq<char>>;

/// For each event that `quick_xml::Reader::read_event_into` reads from
/// `xml`, up to the end of input or the first error, the bytes that
/// `quick_xml::Writer::write_event`, on a writer without indentation, writes
/// for that event as read.
pub uninterp spec fn quick_xml_copies(xml: Seq<u8>) -> Seq<Seq<u8>>;

/// The error that `quick_xml::Writer::write_event`, on a writer without
/// indentation into a byte vector holding `held`, gives when it writes the
/// bytes `bytes`; `None` where it writes them.
pub uninterp spec fn quick_xml_write_error(held: Seq<u8>, bytes: Seq<u8>) -> Option<Seq<char>>;

#[verifier::external_type_specification]
#[verifier::external_body]
#[verifier::reject_recursive_types(R)]
pub struct ExReader<R>(Reader<R>);

/// The events a reader has yet to give, up to the end of input or the first
/// error, and the text of that error.
pub uninterp spec fn reader_pending(r: Reader<&[u8]>) -> (Seq<RawEventView>, Option<Seq<char>>);

/// For each event a reader has yet to give, the bytes that
/// `Writer::write_event`, on a writer without indentation, writes for it.
pub uninterp spec fn reader_pending_copies(r: Reader<&[u8]>) -> Seq<Seq<u8>>;

#[verifier::external_type_specification]
#[verifier::external_body]
#[verifier::reject_recursive_types(W)]
pub struct ExWriter<W>(Writer<W>);

/// What a writer into a byte vector holds: the bytes written so far.
pub uninterp spec fn writer_output(w: Writer<Vec<u8>>) -> Seq<u8>;

/// Whether a writer indents (it was made by `Writer::new_with_indent`).
pub uninterp spec fn writer_indents(w: Writer<Vec<u8>>) -> bool;

/// What one read gives: an event, or the end of the events with the error
/// that ended them, if any.
pub enum ReadStep {
    Event(XmlEvent),
    End(Option<String>),
}

/// What one read gives, as the reader gives it.
pub enum RawReadStep {
    Event(RawEvent),
    End(Option<String>),
}

/// A reader over `xml`. Calls `Reader::from_reader`.
#[verifier::external_body]
fn reader_over(xml: &[u8]) -> (r: Reader<&[u8]>)
    ensures
        reader_pending(r) == quick_xml_events(xml@),
        reader_pending_copies(r) == quick_xml_copies(xml@),
        reader_pending_copies(r).len() == reader_pending(r).0.len(),
{
    Reader::from_reader(xml)
}

/// The next event of `reader`, read with `Reader::read_event_into`; each
/// attribute of a tag handed out as its `attributes()` iterator gives it.
#[verifier::external_body]
fn read_raw_event(reader: &mut Reader<&[u8]>) -> (r: RawReadStep)
    ensures
        ({
            let (evs, err) = reader_pending(*old(reader));
            if evs.len() > 0 {
                r matches RawReadStep::Event(e) && e@ == evs[0] && reader_pending(*final(reader)) == (
                    evs.drop_first(),
                    err,
                ) && reader_pending_copies(*final(reader)) == reader_pending_copies(*old(reader)).drop_first()
            } else {
                r matches RawReadStep::End(x) && opt_string_view(x) == err
            }
        }),
{
    let tag = |s: BytesStart| RawTag { name: s.name().0.to_vec(), attrs: s.attributes().map(|a| a.ok().map(|a| (a.key.0.to_vec(), a.value.to_vec()))).collect() };
    RawReadStep::Event(match reader.read_event_into(&mut vec![]) {
        Ok(Event::Eof) => return RawReadStep::End(None),
        Err(e) => return RawReadStep::End(Some(e.to_string())),
        Ok(Event::Start(s)) => RawEvent::Start(tag(s)),
        Ok(Event::Empty(s)) => RawEvent::Empty(tag(s)),
        Ok(Event::Text(t)) => RawEvent::Text(t.to_vec()),
        Ok(_) => RawEvent::Other,
    })
}

fn copy_bytes(b: &Vec<u8>) -> (r: Vec<u8>)
    ensures
        r@ == b@,
{
    let mut out: Vec<u8> = Vec::new();
    extend_range(&mut out, b.as_slice(), 0, b.len());
    assert(b@.subrange(0, b@.len() as int) =~= b@);
    out
}

/// The well-formed attributes among `attrs`, in order.
fn keep_well_formed(attrs: &Vec<Option<(Vec<u8>, Vec<u8>)>>) -> (r: Vec<(Vec<u8>, Vec<u8>)>)
    ensures
        attrs_view(r@) == well_formed_attrs(raw_attrs_view(attrs@)),
{
    let mut out: Vec<(Vec<u8>, Vec<u8>)> = Vec::new();
    let mut i: usize = 0;
    while i < attrs.len()
        invariant
            0 <= i <= attrs.len(),
            attrs_view(out@) == well_formed_attrs(raw_attrs_view(attrs@.subrange(0, i as int))),
        decreases attrs.len() - i,
    {
        let ghost before = out@;
        assert(raw_attrs_view(attrs@.subrange(0, i + 1)).drop_last() =~= raw_attrs_view(
            attrs@.subrange(0, i as int),
        ));
        match &attrs[i] {
            Some(p) => {
                out.push((copy_bytes(&p.0), copy_bytes(&p.1)));
                assert(attrs_view(out@) =~= attrs_view(before) + seq![(p.0@, p.1@)]);
            },
            None => {},
        }
        i = i + 1;
    }
    assert(attrs@.subrange(0, attrs.len() as int) =~= attrs@);
    out
}

/// An event as the repairs see it.
fn clean_raw_event(e: RawEvent) -> (r: XmlEvent)
    ensures
        r@ == clean_event(e@),
{
    match e {
        RawEvent::Start(t) => {
            let attrs = keep_well_formed(&t.attrs);
            XmlEvent::Start(XmlTag { name: t.name, attrs })
        },
        RawEvent::Empty(t) => {
            let attrs = keep_well_formed(&t.attrs);
            XmlEvent::Empty(XmlTag { name: t.name, attrs })
        },
        RawEvent::Text(b) => XmlEvent::Text(b),
        RawEvent::Other => XmlEvent::Other,
    }
}

/// The next event of `reader`, as the repairs see it.
fn next_event(reader: &mut Reader<&[u8]>) -> (r: ReadStep)
    ensures
        ({
            let (evs, err) = reader_pending(*old(reader));
            if evs.len() > 0 {
                r matches ReadStep::Event(e) && e@ == clean_event(evs[0]) && reader_pending(*final(reader)) == (
                    evs.drop_first(),
                    err,
                ) && reader_pending_copies(*final(reader)) == reader_pending_copies(*old(reader)).drop_first()
            } else {
                r matches ReadStep::End(x) && opt_string_view(x) == err
            }
        }),
{
    match read_raw_event(reader) {
        RawReadStep::Event(e) => ReadStep::Event(clean_raw_event(e)),
        RawReadStep::End(x) => ReadStep::End(x),
    }
}

/// The events of `xml`, up to the end of input or the first error, and the
/// text of that error.
fn read_xml_events(xml: &[u8]) -> (r: (Vec<XmlEvent>, Option<String>))
    ensures
        events_view(r.0@) == xml_events(xml@),
        opt_string_view(r.1) == quick_xml_events(xml@).1,
{
    let mut reader = reader_over(xml);
    let ghost all = quick_xml_events(xml@);
    let mut out: Vec<XmlEvent> = Vec::new();
    loop
        invariant
            all == quick_xml_events(xml@),
            out.len() <= all.0.len(),
            events_view(out@) == clean_events(all.0.subrange(0, out.len() as int)),
            reader_pending(reader) == (all.0.subrange(out.len() as int, all.0.len() as int), all.1),
        decreases all.0.len() - out.len(),
    {
        let ghost before = out@;
        let ghost pend = reader_pending(reader);
        match next_event(&mut reader) {
            ReadStep::Event(e) => {
                out.push(e);
                assert(events_view(out@) =~= events_view(before).push(e@));
                assert(all.0.subrange(0, out.len() as int) =~= all.0.subrange(0, before.len() as int).push(
                    pend.0[0],
                ));
                assert(clean_events(all.0.subrange(0, out.len() as int)) =~= clean_events(
                    all.0.subrange(0, before.len() as int),
                ).push(e@));
                assert(all.0.subrange(before.len() as int, all.0.len() as int).drop_first() =~= all.0.subrange(
                    out.len() as int,
                    all.0.len() as int,
                ));
            },
            ReadStep::End(err) => {
                assert(pend.0.len() == all.0.len() - out.len());
                assert(all.0.subrange(0, out.len() as int) =~= all.0);
                return (out, err);
            },
        }
    }
}

/// Decodes and unescapes raw text as `BytesText::unescape` does: UTF-8
/// decoding, then `quick_xml::escape::unescape`.
#[verifier::external_body]
fn unescape_text(raw: &[u8]) -> (r: Result<String, String>)
    ensures
        match quick_xml_unescape(raw@) {
            Ok(t) => r matches Ok(s) && s@ == t,
            Err(e) => r matches Err(s) && s@ == e,
        },
{
    let text = std::str::from_utf8(raw).map_err(|e| quick_xml::encoding::EncodingError::from(e).to_string())?;
    quick_xml::escape::unescape(text).map(|t| t.into_owned()).map_err(|e| e.to_string())
}

/// The bytes `write_event` writes for a start tag of content `c`: `<`, `c`, `>`.
pub open spec fn start_tag_bytes(c: Seq<u8>) -> Seq<u8> {
    seq![0x3Cu8] + c + seq![0x3Eu8]
}

/// The bytes `write_event` writes for an empty tag of content `c`: `<`, `c`, `/>`.
pub open spec fn empty_tag_bytes(c: Seq<u8>) -> Seq<u8> {
    seq![0x3Cu8] + c + seq![0x2Fu8, 0x3Eu8]
}

/// A writer into an empty byte vector, without indentation. Calls
/// `Writer::new`.
#[verifier::external_body]
fn new_writer() -> (w: Writer<Vec<u8>>)
    ensures
        writer_output(w) == Seq::<u8>::empty(),
        !writer_indents(w),
{
    Writer::new(Vec::new())
}

/// The bytes a writer holds. Calls `Writer::into_inner`.
#[verifier::external_body]
fn writer_bytes(w: Writer<Vec<u8>>) -> (r: Vec<u8>)
    ensures
        r@ == writer_output(w),
{
    w.into_inner()
}

/// Writes a start tag whose content (name and attributes) is `content`, with
/// `Writer::write_event`; a writer without indentation writes `<`, the
/// content and `>`.
#[verifier::external_body]
fn write_start_tag(w: &mut Writer<Vec<u8>>, content: &[u8]) -> (r: Result<(), String>)
    requires
        !writer_indents(*old(w)),
    ensures
        !writer_indents(*final(w)),
        match quick_xml_write_error(writer_output(*old(w)), start_tag_bytes(content@)) {
            None => r is Ok && writer_output(*final(w)) == writer_output(*old(w)) + start_tag_bytes(content@),
            Some(e) => r matches Err(m) && m@ == e,
        },
{
    w.write_event(Event::Start(BytesStart::from(QName(content)))).map_err(|e| e.to_string())
}

/// Writes an empty tag whose content (name and attributes) is `content`, with
/// `Writer::write_event`; a writer without indentation writes `<`, the
/// content and `/>`.
#[verifier::external_body]
fn write_empty_tag(w: &mut Writer<Vec<u8>>, content: &[u8]) -> (r: Result<(), String>)
    requires
        !writer_indents(*old(w)),
    ensures
        !writer_indents(*final(w)),
        match quick_xml_write_error(writer_output(*old(w)), empty_tag_bytes(content@)) {
            None => r is Ok && writer_output(*final(w)) == writer_output(*old(w)) + empty_tag_bytes(content@),
            Some(e) => r matches Err(m) && m@ == e,
        },
{
    w.write_event(Event::Empty(BytesStart::from(QName(content)))).map_err(|e| e.to_string())
}

/// Reads the next event with `Reader::read_event_into` and writes it as read
/// with `Writer::write_event`. The reader must have an event left.
#[verifier::external_body]
fn copy_next_event(reader: &mut Reader<&[u8]>, w: &mut Writer<Vec<u8>>) -> (r: Result<(), String>)
    requires
        reader_pending(*old(reader)).0.len() > 0,
        !writer_indents(*old(w)),
    ensures
        reader_pending(*final(reader)) == (reader_pending(*old(reader)).0.drop_first(), reader_pending(
            *old(reader),
        ).1),
        reader_pending_copies(*final(reader)) == reader_pending_copies(*old(reader)).drop_first(),
        !writer_indents(*final(w)),
        match quick_xml_write_error(writer_output(*old(w)), reader_pending_copies(*old(reader))[0]) {
            None => r is Ok && writer_output(*final(w)) == writer_output(*old(w)) + reader_pending_copies(
                *old(reader),
            )[0],
            Some(e) => r matches Err(m) && m@ == e,
        },
{
    match reader.read_event_into(&mut Vec::new()) {
        Ok(event) => w.write_event(event).map_err(|e| e.to_string()),
        Err(e) => Err(e.to_string()),
    }
}

/// The edit planned for event `i`, if any.
pub open spec fn edit_at(edits: Seq<Option<Seq<u8>>>, i: int) -> Option<Seq<u8>> {
    if 0 <= i < edits.len() {
        edits[i]
    } else {
        None
    }
}

/// What is written for event `e`, read as `copy`: an edited start or empty
/// tag from its new content, any other event as read.
pub open spec fn written_piece(e: EventView, copy: Seq<u8>, edit: Option<Seq<u8>>) -> Seq<u8> {
    match edit {
        Some(c) => match e {
            EventView::Start(_) => start_tag_bytes(c),
            EventView::Empty(_) => empty_tag_bytes(c),
            _ => copy,
        },
        None => copy,
    }
}

/// Writing the first `n` events with their edits: the bytes written, or the
/// first write error.
pub open spec fn rewrite_prefix(
    events: Seq<EventView>,
    copies: Seq<Seq<u8>>,
    edits: Seq<Option<Seq<u8>>>,
    n: int,
) -> Result<Seq<u8>, Seq<char>>
    decreases n,
{
    if n <= 0 {
        Ok(Seq::empty())
    } else {
        match rewrite_prefix(events, copies, edits, n - 1) {
            Err(e) => Err(e),
            Ok(held) => {
                let piece = written_piece(events[n - 1], copies[n - 1], edit_at(edits, n - 1));
                match quick_xml_write_error(held, piece) {
                    Some(e) => Err(e),
                    None => Ok(held + piece),
                }
            },
        }
    }
}

/// Writing back every event read from `xml` with the edits `edits`.
pub open spec fn rewritten(xml: Seq<u8>, edits: Seq<Option<Seq<u8>>>) -> Result<Seq<u8>, Seq<char>> {
    let events = xml_events(xml);
    rewrite_prefix(events, quick_xml_copies(xml), edits, events.len() as int)
}

/// A write error stays the outcome of every longer prefix.
proof fn lemma_rewrite_error_stays(
    events: Seq<EventView>,
    copies: Seq<Seq<u8>>,
    edits: Seq<Option<Seq<u8>>>,
    k: int,
    n: int,
)
    requires
        0 <= k <= n,
        rewrite_prefix(events, copies, edits, k) is Err,
    ensures
        rewrite_prefix(events, copies, edits, n) == rewrite_prefix(events, copies, edits, k),
    decreases n - k,
{
    if k < n {
        lemma_rewrite_error_stays(events, copies, edits, k, n - 1);
    }
}

/// Reads `xml` again and writes each of its events, whose views are
/// `events`: a start or empty tag with an edit from its new content, any
/// other event as read. A write error is returned as its text.
fn write_back(xml: &[u8], events: &Vec<XmlEvent>, edits: &Vec<Option<Vec<u8>>>) -> (r: Result<Vec<u8>, String>)
    requires
        events_view(events@) == xml_events(xml@),
    ensures
        match rewritten(xml@, edits_view(edits@)) {
            Ok(b) => r matches Ok(v) && v@ == b,
            Err(e) => r matches Err(m) && m@ == e,
        },
{
    let mut reader = reader_over(xml);
    let mut w = new_writer();
    let ghost all = quick_xml_events(xml@);
    let ghost copies = quick_xml_copies(xml@);
    let ghost ev = edits_view(edits@);
    let mut i: usize = 0;
    while i < events.len()
        invariant
            0 <= i <= events.len(),
            all == quick_xml_events(xml@),
            copies == quick_xml_copies(xml@),
            events_view(events@) == clean_events(all.0),
            ev == edits_view(edits@),
            copies.len() == all.0.len(),
            reader_pending(reader) == (all.0.subrange(i as int, all.0.len() as int), all.1),
            reader_pending_copies(reader) == copies.subrange(i as int, copies.len() as int),
            !writer_indents(w),
            rewrite_prefix(clean_events(all.0), copies, ev, i as int) == Ok::<Seq<u8>, Seq<char>>(
                writer_output(w),
            ),
        decreases events.len() - i,
    {
        let ghost held = writer_output(w);
        let ghost pend = reader_pending(reader);
        let ghost pend_copies = reader_pending_copies(reader);
        assert(events_view(events@)[i as int] == events@[i as int]@);
        assert(pend.0[0] == all.0[i as int]);
        assert(pend_copies[0] == copies[i as int]);
        let edit: Option<&Vec<u8>> = if i < edits.len() {
            match &edits[i] {
                Some(c) => Some(c),
                None => None,
            }
        } else {
            None
        };
        assert(edit_at(ev, i as int) == match edit {
            Some(c) => Some(c@),
            None => None::<Seq<u8>>,
        });
        let step = match edit {
            Some(c) => match &events[i] {
                XmlEvent::Start(_) => {
                    let _ = next_event(&mut reader);
                    write_start_tag(&mut w, c.as_slice())
                },
                XmlEvent::Empty(_) => {
                    let _ = next_event(&mut reader);
                    write_empty_tag(&mut w, c.as_slice())
                },
                _ => copy_next_event(&mut reader, &mut w),
            },
            None => copy_next_event(&mut reader, &mut w),
        };
        assert(all.0.subrange(i as int, all.0.len() as int).drop_first() =~= all.0.subrange(
            i + 1,
            all.0.len() as int,
        ));
        assert(copies.subrange(i as int, copies.len() as int).drop_first() =~= copies.subrange(
            i + 1,
            copies.len() as int,
        ));
        match step {
            Ok(()) => {},
            Err(m) => {
                proof {
                    lemma_rewrite_error_stays(clean_events(all.0), copies, ev, i + 1, all.0.len() as int);
                }
                return Err(m);
            },
        }
        i = i + 1;
    }
    Ok(writer_bytes(w))
}

/// How `push_attribute` lays out one attribute after a tag's name.
pub open spec fn attr_bytes(key: Seq<u8>, value: Seq<u8>) -> Seq<u8> {
    seq![0x20u8] + key + seq![0x3Du8, 0x22u8] + value + seq![0x22u8]
}

/// A tag's content: its name followed by the first `n` attributes.
pub open spec fn tag_content(name: Seq<u8>, attrs: Seq<(Seq<u8>, Seq<u8>)>, n: int) -> Seq<u8>
    decreases n,
{
    if n <= 0 {
        name
    } else {
        tag_content(name, attrs, n - 1) + attr_bytes(attrs[n - 1].0, attrs[n - 1].1)
    }
}

/// `w:t`.
pub open spec fn text_tag_name() -> Seq<u8> {
    seq![0x77u8, 0x3Au8, 0x74u8]
}

/// `xml:space`.
pub open spec fn xml_space_key() -> Seq<u8> {
    seq![0x78u8, 0x6Du8, 0x6Cu8, 0x3Au8, 0x73u8, 0x70u8, 0x61u8, 0x63u8, 0x65u8]
}

/// `preserve`.
pub open spec fn preserve_value() -> Seq<u8> {
    seq![0x70u8, 0x72u8, 0x65u8, 0x73u8, 0x65u8, 0x72u8, 0x76u8, 0x65u8]
}

/// Text whose first or last character is a space or a tab.
pub open spec fn needs_preserve(s: Seq<char>) -> bool {
    s.len() > 0 && (s[0] == ' ' || s[0] == '\t' || s.last() == ' ' || s.last() == '\t')
}

pub open spec fn has_key(attrs: Seq<(Seq<u8>, Seq<u8>)>, key: Seq<u8>) -> bool {
    exists|i: int| 0 <= i < attrs.len() && (#[trigger] attrs[i]).0 == key
}

/// The new content of a `w:t` start tag whose text is `text`, when it needs one.
pub open spec fn preserve_edit(t: TagView, text: Seq<char>) -> Option<Seq<u8>> {
    if needs_preserve(text) && !has_key(t.attrs, xml_space_key()) {
        Some(tag_content(t.name, t.attrs, t.attrs.len() as int) + attr_bytes(xml_space_key(), preserve_value()))
    } else {
        None
    }
}

pub open spec fn is_text_start(e: EventView) -> bool {
    e matches EventView::Start(t) && t.name == text_tag_name()
}

/// `done` followed by what `r` plans, or the error of `r`.
pub open spec fn plan_then(done: Seq<Option<Seq<u8>>>, r: Result<Seq<Option<Seq<u8>>>, Seq<char>>) -> Result<
    Seq<Option<Seq<u8>>>,
    Seq<char>,
> {
    match r {
        Ok(rest) => Ok(done + rest),
        Err(e) => Err(e),
    }
}

/// The edits for events `i ..`: a `w:t` start tag followed by text is given
/// `xml:space="preserve"` when the unescaped text needs it; the event after
/// a `w:t` start tag is passed on unexamined.
pub open spec fn preserve_from(events: Seq<EventView>, i: int) -> Result<Seq<Option<Seq<u8>>>, Seq<char>>
    decreases events.len() - i,
{
    if i < 0 || i >= events.len() {
        Ok(Seq::empty())
    } else if is_text_start(events[i]) && i + 1 < events.len() {
        match events[i + 1] {
            EventView::Text(raw) => match quick_xml_unescape(raw) {
                Err(e) => Err(e),
                Ok(text) => plan_then(
                    seq![preserve_edit(events[i]->Start_0, text), None],
                    preserve_from(events, i + 2),
                ),
            },
            _ => plan_then(seq![None, None], preserve_from(events, i + 2)),
        }
    } else {
        plan_then(seq![None], preserve_from(events, i + 1))
    }
}

proof fn lemma_plan_then_assoc(
    a: Seq<Option<Seq<u8>>>,
    b: Seq<Option<Seq<u8>>>,
    r: Result<Seq<Option<Seq<u8>>>, Seq<char>>,
)
    ensures
        plan_then(a, plan_then(b, r)) == plan_then(a + b, r),
{
    match r {
        Ok(rest) => assert(a + (b + rest) =~= (a + b) + rest),
        Err(_) => {},
    }
}

/// What `ensure_xml_space_preserve` gives for `xml`.
pub open spec fn space_preserve_outcome(xml: Seq<u8>) -> Result<Seq<u8>, Seq<char>> {
    let events = xml_events(xml);
    let read_error = quick_xml_events(xml).1;
    match preserve_from(events, 0) {
        Err(e) => Err(e),
        Ok(edits) => match read_error {
            Some(e) => Err(e),
            None => rewritten(xml, edits),
        },
    }
}

/// Whether `a` and `b` hold the same bytes.
fn same_bytes(a: &Vec<u8>, b: &Vec<u8>) -> (r: bool)
    ensures
        r == (a@ == b@),
{
    if a.len() != b.len() {
        return false;
    }
    let mut i: usize = 0;
    while i < a.len()
        invariant
            a.len() == b.len(),
            0 <= i <= a.len(),
            forall|j: int| 0 <= j < i ==> a@[j] == b@[j],
        decreases a.len() - i,
    {
        if a[i] != b[i] {
            return false;
        }
        i = i + 1;
    }
    assert(a@ =~= b@);
    true
}

/// Appends one attribute as `push_attribute` lays it out.
fn push_attr_bytes(out: &mut Vec<u8>, key: &Vec<u8>, value: &Vec<u8>)
    ensures
        final(out)@ == old(out)@ + attr_bytes(key@, value@),
{
    out.push(0x20u8);
    extend_range(out, key.as_slice(), 0, key.len());
    out.push(0x3Du8);
    out.push(0x22u8);
    extend_range(out, value.as_slice(), 0, value.len());
    out.push(0x22u8);
    assert(key@.subrange(0, key@.len() as int) =~= key@);
    assert(value@.subrange(0, value@.len() as int) =~= value@);
    assert(final(out)@ =~= old(out)@ + attr_bytes(key@, value@));
}

/// A tag's content: its name and all its attributes.
fn tag_bytes(t: &XmlTag) -> (r: Vec<u8>)
    ensures
        r@ == tag_content(t@.name, t@.attrs, t@.attrs.len() as int),
{
    let mut out: Vec<u8> = Vec::new();
    extend_range(&mut out, t.name.as_slice(), 0, t.name.len());
    assert(t.name@.subrange(0, t.name@.len() as int) =~= t.name@);
    let mut i: usize = 0;
    while i < t.attrs.len()
        invariant
            0 <= i <= t.attrs.len(),
            out@ == tag_content(t@.name, t@.attrs, i as int),
        decreases t.attrs.len() - i,
    {
        push_attr_bytes(&mut out, &t.attrs[i].0, &t.attrs[i].1);
        i = i + 1;
    }
    out
}

/// Whether some attribute has key `key`.
fn has_attr_key(attrs: &Vec<(Vec<u8>, Vec<u8>)>, key: &Vec<u8>) -> (r: bool)
    ensures
        r == has_key(attrs_view(attrs@), key@),
{
    let ghost av = attrs_view(attrs@);
    let mut i: usize = 0;
    while i < attrs.len()
        invariant
            0 <= i <= attrs.len(),
            av == attrs_view(attrs@),
            forall|j: int| 0 <= j < i ==> (#[trigger] av[j]).0 != key@,
        decreases attrs.len() - i,
    {
        assert(av[i as int].0 == attrs@[i as int].0@);
        if same_bytes(&attrs[i].0, key) {
            return true;
        }
        i = i + 1;
    }
    false
}

fn text_tag_name_bytes() -> (r: Vec<u8>)
    ensures
        r@ == text_tag_name(),
{
    let r = vec![0x77u8, 0x3Au8, 0x74u8];
    assert(r@ =~= text_tag_name());
    r
}

fn xml_space_key_bytes() -> (r: Vec<u8>)
    ensures
        r@ == xml_space_key(),
{
    let r = vec![0x78u8, 0x6Du8, 0x6Cu8, 0x3Au8, 0x73u8, 0x70u8, 0x61u8, 0x63u8, 0x65u8];
    assert(r@ =~= xml_space_key());
    r
}

fn preserve_value_bytes() -> (r: Vec<u8>)
    ensures
        r@ == preserve_value(),
{
    let r = vec![0x70u8, 0x72u8, 0x65u8, 0x73u8, 0x65u8, 0x72u8, 0x76u8, 0x65u8];
    assert(r@ =~= preserve_value());
    r
}

/// The new content of a `w:t` start tag whose text is `text`, when it needs one.
fn preserve_edit_for(t: &XmlTag, text: &String) -> (r: Option<Vec<u8>>)
    ensures
        match preserve_edit(t@, text@) {
            Some(c) => r matches Some(v) && v@ == c,
            None => r is None,
        },
{
    let cs = chars_of(text.as_str());
    let n = cs.len();
    let needs = n > 0 && (cs[0] == ' ' || cs[0] == '\t' || cs[n - 1] == ' ' || cs[n - 1] == '\t');
    let key = xml_space_key_bytes();
    if needs && !has_attr_key(&t.attrs, &key) {
        let mut content = tag_bytes(t);
        push_attr_bytes(&mut content, &key, &preserve_value_bytes());
        Some(content)
    } else {
        None
    }
}

/// The edits that add `xml:space="preserve"` to the `w:t` start tags of
/// `events` whose text starts or ends with a space or tab; or the first error
/// met while unescaping such text.
pub fn plan_space_preserve(events: &Vec<XmlEvent>) -> (r: Result<Vec<Option<Vec<u8>>>, String>)
    ensures
        match preserve_from(events_view(events@), 0) {
            Ok(e) => r matches Ok(v) && edits_view(v@) == e,
            Err(m) => r matches Err(s) && s@ == m,
        },
{
    let ghost ev = events_view(events@);
    let wt = text_tag_name_bytes();
    let mut edits: Vec<Option<Vec<u8>>> = Vec::new();
    let mut i: usize = 0;
    assert(plan_then(edits_view(edits@), preserve_from(ev, 0)) =~= preserve_from(ev, 0)) by {
        assert(edits_view(edits@) =~= Seq::<Option<Seq<u8>>>::empty());
        match preserve_from(ev, 0) {
            Ok(rest) => assert(Seq::<Option<Seq<u8>>>::empty() + rest =~= rest),
            Err(_) => {},
        }
    }
    while i < events.len()
        invariant
            0 <= i <= events.len(),
            ev == events_view(events@),
            wt@ == text_tag_name(),
            preserve_from(ev, 0) == plan_then(edits_view(edits@), preserve_from(ev, i as int)),
        decreases events.len() - i,
    {
        let ghost done = edits_view(edits@);
        assert(ev[i as int] == events@[i as int]@);
        let is_wt = match &events[i] {
            XmlEvent::Start(t) => same_bytes(&t.name, &wt),
            _ => false,
        };
        if is_wt && i + 1 < events.len() {
            assert(ev[i + 1] == events@[i + 1]@);
            let t = match &events[i] {
                XmlEvent::Start(t) => t,
                _ => {
                    proof {
                        assert(false);
                    }
                    return Err(String::new());
                },
            };
            match &events[i + 1] {
                XmlEvent::Text(raw) => {
                    let text = match unescape_text(raw.as_slice()) {
                        Ok(s) => s,
                        Err(e) => {
                            return Err(e);
                        },
                    };
                    let edit = preserve_edit_for(t, &text);
                    edits.push(edit);
                    edits.push(None);
                    let ghost x = seq![preserve_edit(ev[i as int]->Start_0, text@), None];
                    assert(edits_view(edits@) =~= done + x);
                    assert(preserve_from(ev, i as int) == plan_then(x, preserve_from(ev, i + 2)));
                    proof {
                        lemma_plan_then_assoc(done, x, preserve_from(ev, i + 2));
                    }
                },
                _ => {
                    edits.push(None);
                    edits.push(None);
                    let ghost x = seq![None, None];
                    assert(edits_view(edits@) =~= done + x);
                    assert(preserve_from(ev, i as int) == plan_then(x, preserve_from(ev, i + 2)));
                    proof {
                        lemma_plan_then_assoc(done, x, preserve_from(ev, i + 2));
                    }
                },
            }
            i = i + 2;
        } else {
            edits.push(None);
            let ghost x = seq![None];
            assert(edits_view(edits@) =~= done + x);
            assert(preserve_from(ev, i as int) == plan_then(x, preserve_from(ev, i + 1)));
            proof {
                lemma_plan_then_assoc(done, x, preserve_from(ev, i + 1));
            }
            i = i + 1;
        }
    }
    assert(edits_view(edits@) + Seq::<Option<Seq<u8>>>::empty() =~= edits_view(edits@));
    Ok(edits)
}

/// Adds `xml:space="preserve"` to every `w:t` start tag whose text starts or
/// ends with a space or a tab and that has no `xml:space` attribute; every
/// other event is written back as read.
pub fn ensure_xml_space_preserve(xml: &[u8]) -> (r: Result<Vec<u8>, DocliError>)
    ensures
        match space_preserve_outcome(xml@) {
            Ok(b) => r matches Ok(v) && v@ == b,
            Err(e) => r matches Err(x) && x.view_pair() == (ErrorCode::InvalidDocx, e),
        },
{
    let (events, read_error) = read_xml_events(xml);
    let edits = match plan_space_preserve(&events) {
        Ok(e) => e,
        Err(message) => {
            return Err(DocliError::InvalidDocx { message });
        },
    };
    match read_error {
        Some(message) => Err(DocliError::InvalidDocx { message }),
        None => match write_back(xml, &events, &edits) {
            Ok(b) => Ok(b),
            Err(message) => Err(DocliError::InvalidDocx { message }),
        },
    }
}

/// Ids from this value up overflow.
pub open spec fn durable_id_limit() -> u64 {
    0x7FFF_FFFF
}

/// `w:id`.
pub open spec fn w_id_key() -> Seq<u8> {
    seq![0x77u8, 0x3Au8, 0x69u8, 0x64u8]
}

/// The number an attribute value spells, when it is UTF-8 and parses as a `u64`.
pub open spec fn attr_number(v: Seq<u8>) -> Option<int> {
    if valid_utf8(v) {
        parse_unsigned(decode_utf8(v), u64::MAX as int)
    } else {
        None
    }
}

/// A `w:id` value that is not a number below the limit.
pub open spec fn overflows(v: Seq<u8>) -> bool {
    match attr_number(v) {
        Some(x) => x >= durable_id_limit(),
        None => true,
    }
}

/// The valid `w:id` values among the first `n` attributes.
pub open spec fn valid_ids_in(attrs: Seq<(Seq<u8>, Seq<u8>)>, n: int, acc: Set<u64>) -> Set<u64>
    decreases n,
{
    if n <= 0 {
        acc
    } else {
        let prev = valid_ids_in(attrs, n - 1, acc);
        let a = attrs[n - 1];
        if a.0 == w_id_key() && !overflows(a.1) {
            prev.insert(attr_number(a.1).unwrap() as u64)
        } else {
            prev
        }
    }
}

/// The valid `w:id` values of the tags among the first `n` events.
pub open spec fn valid_ids(events: Seq<EventView>, n: int) -> Set<u64>
    decreases n,
{
    if n <= 0 {
        Set::empty()
    } else {
        let prev = valid_ids(events, n - 1);
        match events[n - 1] {
            EventView::Start(t) => valid_ids_in(t.attrs, t.attrs.len() as int, prev),
            EventView::Empty(t) => valid_ids_in(t.attrs, t.attrs.len() as int, prev),
            _ => prev,
        }
    }
}

/// The first id from `from` up that is not in use. Only ids below the limit
/// are ever in use, so the search stops there.
pub open spec fn first_free(used: Set<u64>, from: u64) -> u64
    decreases durable_id_limit() - from,
{
    if from >= durable_id_limit() || !used.contains(from) {
        from
    } else {
        first_free(used, (from + 1) as u64)
    }
}

/// An overflowing id is renumbered to an id below the limit that no valid
/// `w:id` of the document uses, the first such at or after the candidate,
/// whenever one is left.
pub proof fn law_renumbered_id_is_fresh(used: Set<u64>, from: u64, free: u64)
    requires
        from <= free < durable_id_limit(),
        !used.contains(free),
    ensures
        from <= first_free(used, from) <= free,
        !used.contains(first_free(used, from)),
        forall|v: u64| from <= v < first_free(used, from) ==> used.contains(v),
    decreases free - from,
{
    if used.contains(from) {
        law_renumbered_id_is_fresh(used, (from + 1) as u64, free);
    }
}

/// The candidate after `id`, wrapping at the top of the range.
pub open spec fn after(id: u64) -> u64 {
    if id == u64::MAX {
        0
    } else {
        (id + 1) as u64
    }
}

/// The candidate after the first `n` attributes, and those attributes laid
/// out with each overflowing `w:id` renumbered.
pub open spec fn renumbered(used: Set<u64>, next: u64, attrs: Seq<(Seq<u8>, Seq<u8>)>, n: int) -> (u64, Seq<u8>)
    decreases n,
{
    if n <= 0 {
        (next, Seq::empty())
    } else {
        let (nx, out) = renumbered(used, next, attrs, n - 1);
        let a = attrs[n - 1];
        if a.0 == w_id_key() && overflows(a.1) {
            let id = first_free(used, nx);
            (after(id), out + attr_bytes(w_id_key(), vstd::utf8::encode_utf8(decimal(id as nat))))
        } else {
            (nx, out + attr_bytes(a.0, a.1))
        }
    }
}

/// The edits for events `i ..`: every tag is rewritten with its overflowing
/// ids renumbered; a tag whose name is not UTF-8 is an error.
pub open spec fn renumber_from(events: Seq<EventView>, i: int, used: Set<u64>, next: u64) -> Result<
    Seq<Option<Seq<u8>>>,
    Seq<char>,
>
    decreases events.len() - i,
{
    if i < 0 || i >= events.len() {
        Ok(Seq::empty())
    } else {
        match events[i] {
            EventView::Start(t) => renumber_tag(events, i, used, next, t),
            EventView::Empty(t) => renumber_tag(events, i, used, next, t),
            _ => plan_then(seq![None], renumber_from(events, i + 1, used, next)),
        }
    }
}

pub open spec fn renumber_tag(events: Seq<EventView>, i: int, used: Set<u64>, next: u64, t: TagView) -> Result<
    Seq<Option<Seq<u8>>>,
    Seq<char>,
>
    decreases events.len() - i, 0int,
{
    if !valid_utf8(t.name) {
        Err(utf8_error_text(t.name))
    } else if 0 <= i < events.len() {
        let (nx, bytes) = renumbered(used, next, t.attrs, t.attrs.len() as int);
        plan_then(seq![Some(t.name + bytes)], renumber_from(events, i + 1, used, nx))
    } else {
        Ok(Seq::empty())
    }
}

/// What `repair_durable_id_overflow` gives for `xml`.
pub open spec fn id_repair_outcome(xml: Seq<u8>) -> Result<Seq<u8>, Seq<char>> {
    let events = xml_events(xml);
    let read_error = quick_xml_events(xml).1;
    match read_error {
        Some(e) => Err(e),
        None => match renumber_from(events, 0, valid_ids(events, events.len() as int), 1) {
            Err(e) => Err(e),
            Ok(edits) => rewritten(xml, edits),
        },
    }
}

/// The number an attribute value spells.
fn attr_number_of(v: &Vec<u8>) -> (r: Option<u64>)
    ensures
        match attr_number(v@) {
            Some(x) => r == Some(x as u64) && x <= u64::MAX,
            None => r is None,
        },
{
    match utf8_str(v.as_slice()) {
        Some(s) => {
            let cs = chars_of(s);
            assert(cs@.subrange(0, cs.len() as int) =~= cs@);
            parse_unsigned_chars(&cs, 0, cs.len(), u64::MAX)
        },
        None => None,
    }
}

fn w_id_key_bytes() -> (r: Vec<u8>)
    ensures
        r@ == w_id_key(),
{
    let r = vec![0x77u8, 0x3Au8, 0x69u8, 0x64u8];
    assert(r@ =~= w_id_key());
    r
}

/// The valid `w:id` values used by the tags of `events`.
pub fn collect_valid_w_ids(events: &Vec<XmlEvent>) -> (ids: HashSet<u64>)
    ensures
        ids@ == valid_ids(events_view(events@), events@.len() as int),
{
    let ghost ev = events_view(events@);
    let key = w_id_key_bytes();
    let mut ids: HashSet<u64> = HashSet::new();
    let mut i: usize = 0;
    while i < events.len()
        invariant
            0 <= i <= events.len(),
            ev == events_view(events@),
            key@ == w_id_key(),
            ids@ == valid_ids(ev, i as int),
        decreases events.len() - i,
    {
        assert(ev[i as int] == events@[i as int]@);
        match &events[i] {
            XmlEvent::Start(t) | XmlEvent::Empty(t) => {
                let ghost av = attrs_view(t.attrs@);
                let ghost start = ids@;
                let mut j: usize = 0;
                while j < t.attrs.len()
                    invariant
                        0 <= j <= t.attrs.len(),
                        av == attrs_view(t.attrs@),
                        key@ == w_id_key(),
                        ids@ == valid_ids_in(av, j as int, start),
                    decreases t.attrs.len() - j,
                {
                    assert(av[j as int] == (t.attrs@[j as int].0@, t.attrs@[j as int].1@));
                    if same_bytes(&t.attrs[j].0, &key) {
                        match attr_number_of(&t.attrs[j].1) {
                            Some(v) => {
                                if v < 0x7FFF_FFFF {
                                    ids.insert(v);
                                }
                            },
                            None => {},
                        }
                    }
                    j = j + 1;
                }
            },
            _ => {},
        }
        i = i + 1;
    }
    ids
}

/// The first id from `from` up that is not in `used`.
fn next_free(used: &HashSet<u64>, from: u64) -> (r: u64)
    requires
        forall|x: u64| used@.contains(x) ==> x < durable_id_limit(),
    ensures
        r == first_free(used@, from),
{
    let mut id = from;
    while id < 0x7FFF_FFFF && used.contains(&id)
        invariant
            from <= id,
            first_free(used@, from) == first_free(used@, id),
        decreases durable_id_limit() - id,
    {
        id = id + 1;
    }
    id
}

proof fn lemma_valid_ids_in_bounded(attrs: Seq<(Seq<u8>, Seq<u8>)>, n: int, acc: Set<u64>)
    requires
        n <= attrs.len(),
        forall|x: u64| acc.contains(x) ==> x < durable_id_limit(),
    ensures
        forall|x: u64| valid_ids_in(attrs, n, acc).contains(x) ==> x < durable_id_limit(),
    decreases n,
{
    if n > 0 {
        lemma_valid_ids_in_bounded(attrs, n - 1, acc);
        let prev = valid_ids_in(attrs, n - 1, acc);
        let a = attrs[n - 1];
        if a.0 == w_id_key() && !overflows(a.1) {
            let v = attr_number(a.1).unwrap();
            assert(v < durable_id_limit());
            assert((v as u64) as int == v);
            assert(valid_ids_in(attrs, n, acc) == prev.insert(v as u64));
            assert forall|x: u64| valid_ids_in(attrs, n, acc).contains(x) implies x < durable_id_limit() by {
                if x != v as u64 {
                    assert(prev.contains(x));
                }
            }
        } else {
            assert(valid_ids_in(attrs, n, acc) == prev);
        }
    }
}

/// Every valid id is below the limit.
proof fn lemma_valid_ids_bounded(events: Seq<EventView>, n: int)
    requires
        n <= events.len(),
    ensures
        forall|x: u64| valid_ids(events, n).contains(x) ==> x < durable_id_limit(),
    decreases n,
{
    if n > 0 {
        lemma_valid_ids_bounded(events, n - 1);
        let prev = valid_ids(events, n - 1);
        match events[n - 1] {
            EventView::Start(t) => {
                lemma_valid_ids_in_bounded(t.attrs, t.attrs.len() as int, prev);
                assert(valid_ids(events, n) == valid_ids_in(t.attrs, t.attrs.len() as int, prev));
            },
            EventView::Empty(t) => {
                lemma_valid_ids_in_bounded(t.attrs, t.attrs.len() as int, prev);
                assert(valid_ids(events, n) == valid_ids_in(t.attrs, t.attrs.len() as int, prev));
            },
            _ => {
                assert(valid_ids(events, n) == prev);
            },
        }
    }
}

/// Lays out the attributes of `t` with each overflowing `w:id` renumbered,
/// advancing the candidate `next`.
fn renumber_attrs(t: &XmlTag, used: &HashSet<u64>, next: &mut u64, out: &mut Vec<u8>)
    requires
        forall|x: u64| used@.contains(x) ==> x < durable_id_limit(),
    ensures
        (*final(next), final(out)@) == {
            let (nx, bytes) = renumbered(used@, *old(next), t@.attrs, t@.attrs.len() as int);
            (nx, old(out)@ + bytes)
        },
{
    let ghost av = t@.attrs;
    let ghost next0 = *next;
    let ghost out0 = out@;
    let key = w_id_key_bytes();
    let mut j: usize = 0;
    assert(out@ =~= out0 + Seq::<u8>::empty());
    while j < t.attrs.len()
        invariant
            0 <= j <= t.attrs.len(),
            av == t@.attrs,
            key@ == w_id_key(),
            forall|x: u64| used@.contains(x) ==> x < durable_id_limit(),
            (*next, out@) == {
                let (nx, bytes) = renumbered(used@, next0, av, j as int);
                (nx, out0 + bytes)
            },
        decreases t.attrs.len() - j,
    {
        let ghost before = out@;
        assert(av[j as int] == (t.attrs@[j as int].0@, t.attrs@[j as int].1@));
        let a = &t.attrs[j];
        let renumber = same_bytes(&a.0, &key) && match attr_number_of(&a.1) {
            Some(v) => v >= 0x7FFF_FFFF,
            None => true,
        };
        if renumber {
            let id = next_free(used, *next);
            *next = if id == u64::MAX {
                0
            } else {
                id + 1
            };
            let mut digits: Vec<char> = Vec::new();
            push_decimal(&mut digits, id);
            let value = crate::markup::chars_utf8(&digits);
            assert(digits@ =~= decimal(id as nat));
            push_attr_bytes(out, &key, &value);
        } else {
            push_attr_bytes(out, &a.0, &a.1);
        }
        assert(out@ =~= out0 + (before.subrange(out0.len() as int, before.len() as int) + out@.subrange(
            before.len() as int,
            out@.len() as int,
        )));
        j = j + 1;
    }
}

/// The edits that renumber the overflowing `w:id`s of `events`, each tag
/// rewritten; or the error for the first tag whose name is not UTF-8.
pub fn plan_id_renumbering(events: &Vec<XmlEvent>) -> (r: Result<Vec<Option<Vec<u8>>>, String>)
    ensures
        match renumber_from(events_view(events@), 0, valid_ids(events_view(events@), events@.len() as int), 1) {
            Ok(e) => r matches Ok(v) && edits_view(v@) == e,
            Err(m) => r matches Err(s) && s@ == m,
        },
{
    let ghost ev = events_view(events@);
    let used = collect_valid_w_ids(events);
    proof {
        lemma_valid_ids_bounded(ev, ev.len() as int);
    }
    let ghost u = used@;
    let mut next: u64 = 1;
    let mut edits: Vec<Option<Vec<u8>>> = Vec::new();
    let mut i: usize = 0;
    assert(plan_then(edits_view(edits@), renumber_from(ev, 0, u, next)) =~= renumber_from(ev, 0, u, 1)) by {
        assert(edits_view(edits@) =~= Seq::<Option<Seq<u8>>>::empty());
        match renumber_from(ev, 0, u, 1) {
            Ok(rest) => assert(Seq::<Option<Seq<u8>>>::empty() + rest =~= rest),
            Err(_) => {},
        }
    }
    while i < events.len()
        invariant
            0 <= i <= events.len(),
            ev == events_view(events@),
            u == used@,
            u == valid_ids(ev, ev.len() as int),
            forall|x: u64| u.contains(x) ==> x < durable_id_limit(),
            renumber_from(ev, 0, u, 1) == plan_then(edits_view(edits@), renumber_from(ev, i as int, u, next)),
        decreases events.len() - i,
    {
        let ghost done = edits_view(edits@);
        let ghost next0 = next;
        assert(ev[i as int] == events@[i as int]@);
        match &events[i] {
            XmlEvent::Start(t) | XmlEvent::Empty(t) => {
                assert(ev[i as int] == EventView::Start(t@) || ev[i as int] == EventView::Empty(t@));
                assert(renumber_from(ev, i as int, u, next0) == renumber_tag(ev, i as int, u, next0, t@));
                if !crate::bytes::is_valid_utf8(t.name.as_slice()) {
                    return Err(utf8_error_message(t.name.as_slice()));
                }
                let mut content: Vec<u8> = Vec::new();
                extend_range(&mut content, t.name.as_slice(), 0, t.name.len());
                assert(t.name@.subrange(0, t.name@.len() as int) =~= t.name@);
                renumber_attrs(t, &used, &mut next, &mut content);
                edits.push(Some(content));
                let ghost x = seq![Some(t@.name + renumbered(u, next0, t@.attrs, t@.attrs.len() as int).1)];
                assert(edits_view(edits@) =~= done + x);
                assert(renumber_from(ev, i as int, u, next0) == plan_then(x, renumber_from(ev, i + 1, u, next)));
                proof {
                    lemma_plan_then_assoc(done, x, renumber_from(ev, i + 1, u, next));
                }
            },
            _ => {
                edits.push(None);
                let ghost x = seq![None];
                assert(edits_view(edits@) =~= done + x);
                assert(renumber_from(ev, i as int, u, next0) == plan_then(x, renumber_from(ev, i + 1, u, next)));
                proof {
                    lemma_plan_then_assoc(done, x, renumber_from(ev, i + 1, u, next));
                }
            },
        }
        i = i + 1;
    }
    assert(edits_view(edits@) + Seq::<Option<Seq<u8>>>::empty() =~= edits_view(edits@));
    Ok(edits)
}

/// Renumbers every `w:id` whose value is not a number below `0x7FFFFFFF`
/// with the next id from 1 up that no valid `w:id` of the document uses;
/// every tag is written back with its attributes laid out anew.
pub fn repair_durable_id_overflow(xml: &[u8]) -> (r: Result<Vec<u8>, DocliError>)
    ensures
        match id_repair_outcome(xml@) {
            Ok(b) => r matches Ok(v) && v@ == b,
            Err(e) => r matches Err(x) && x.view_pair() == (ErrorCode::InvalidDocx, e),
        },
{
    let (events, read_error) = read_xml_events(xml);
    if let Some(message) = read_error {
        return Err(DocliError::InvalidDocx { message });
    }
    match plan_id_renumbering(&events) {
        Ok(edits) => match write_back(xml, &events, &edits) {
            Ok(b) => Ok(b),
            Err(message) => Err(DocliError::InvalidDocx { message }),
        },
        Err(message) => Err(DocliError::InvalidDocx { message }),
    }
}

} // verus!
