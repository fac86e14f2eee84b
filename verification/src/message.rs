//! Message frames: an ordered run of typed sections and its form on the wire.
//!
//! A frame is filled at the tail and emptied from the head. Every section
//! carries a tag, so taking a section as another type than the one that was
//! pushed fails instead of misreading bytes.
//!
//! On the wire a section is its tag byte followed by its content: one byte
//! for a `u8`, four little-endian bytes for a `u32`, and for a string or a
//! byte block a little-endian `u32` length followed by that many bytes. A
//! frame is a little-endian `u32` length followed by its sections, one after
//! another.

use std::collections::VecDeque;
use vstd::prelude::*;
use vstd::bytes::{spec_u32_from_le_bytes, spec_u32_to_le_bytes, lemma_auto_spec_u32_to_from_le_bytes};
use vstd::bytes::{u32_from_le_bytes, u32_to_le_bytes};
use vstd::slice::{slice_subrange, slice_to_vec};
use vstd::utf8::{decode_utf8, encode_utf8, valid_utf8};
use vstd::utf8::{encode_utf8_decode_utf8, encode_utf8_valid_utf8};
use crate::error::Error;

verus! {

/// Tag of a section that holds one byte.
pub const TAG_U8: u8 = 1;

/// Tag of a section that holds a 32-bit unsigned integer.
pub const TAG_U32: u8 = 2;

/// Tag of a section that holds a UTF-8 string.
pub const TAG_STR: u8 = 3;

/// Tag of a section that holds uninterpreted bytes.
pub const TAG_BYTES: u8 = 4;

/// Number of bytes in front of a frame's sections, and in front of the
/// content of a string or byte section after its tag.
pub const LEN_BYTES: usize = 4;

/// One section of a frame.
#[derive(Debug)]
pub enum Section {
    U8(u8),
    U32(u32),
    Str(String),
    Bytes(Vec<u8>),
}

/// What a section holds, as a mathematical value.
pub enum SectionView {
    U8(u8),
    U32(u32),
    Str(Seq<char>),
    Bytes(Seq<u8>),
}

impl View for Section {
    type V = SectionView;

    open spec fn view(&self) -> SectionView {
        match self {
            Section::U8(v) => SectionView::U8(*v),
            Section::U32(v) => SectionView::U32(*v),
            Section::Str(s) => SectionView::Str(s@),
            Section::Bytes(b) => SectionView::Bytes(b@),
        }
    }
}

/// A section can be written: its content is short enough for a `u32` length.
pub open spec fn valid_section(s: SectionView) -> bool {
    match s {
        SectionView::U8(_) => true,
        SectionView::U32(_) => true,
        SectionView::Str(cs) => encode_utf8(cs).len() <= u32::MAX,
        SectionView::Bytes(b) => b.len() <= u32::MAX,
    }
}

/// Every section of the run can be written.
pub open spec fn valid_sections(ss: Seq<SectionView>) -> bool {
    forall|i: int| 0 <= i < ss.len() ==> valid_section(#[trigger] ss[i])
}

/// The bytes of one section.
pub open spec fn section_bytes(s: SectionView) -> Seq<u8> {
    match s {
        SectionView::U8(v) => seq![TAG_U8, v],
        SectionView::U32(v) => seq![TAG_U32] + spec_u32_to_le_bytes(v),
        SectionView::Str(cs) => seq![TAG_STR] + spec_u32_to_le_bytes(encode_utf8(cs).len() as u32)
            + encode_utf8(cs),
        SectionView::Bytes(b) => seq![TAG_BYTES] + spec_u32_to_le_bytes(b.len() as u32) + b,
    }
}

/// The bytes of a run of sections: those of each section, in order.
pub open spec fn sections_bytes(ss: Seq<SectionView>) -> Seq<u8>
    decreases ss.len(),
{
    if ss.len() == 0 {
        Seq::empty()
    } else {
        section_bytes(ss[0]) + sections_bytes(ss.drop_first())
    }
}

/// The section that starts the given bytes and the number of bytes it takes,
/// or `None` where the bytes start with no complete section.
pub open spec fn parse_section(bytes: Seq<u8>) -> Option<(SectionView, int)> {
    if bytes.len() < 2 {
        None
    } else if bytes[0] == TAG_U8 {
        Some((SectionView::U8(bytes[1]), 2))
    } else if bytes.len() < 1 + LEN_BYTES {
        None
    } else if bytes[0] == TAG_U32 {
        Some((SectionView::U32(spec_u32_from_le_bytes(bytes.subrange(1, 5))), 5))
    } else if bytes[0] == TAG_STR || bytes[0] == TAG_BYTES {
        let n = spec_u32_from_le_bytes(bytes.subrange(1, 5)) as int;
        let body = bytes.subrange(5, 5 + n);
        if bytes.len() < 5 + n {
            None
        } else if bytes[0] == TAG_BYTES {
            Some((SectionView::Bytes(body), 5 + n))
        } else if valid_utf8(body) {
            Some((SectionView::Str(decode_utf8(body)), 5 + n))
        } else {
            None
        }
    } else {
        None
    }
}

/// The run of sections that the given bytes hold, or `None` where they are
/// not a run of complete sections.
pub open spec fn parse_sections(bytes: Seq<u8>) -> Option<Seq<SectionView>>
    decreases bytes.len(),
{
    if bytes.len() == 0 {
        Some(Seq::empty())
    } else {
        match parse_section(bytes) {
            None => None,
            Some((s, n)) => match parse_sections(bytes.skip(n)) {
                None => None,
                Some(rest) => Some(seq![s] + rest),
            },
        }
    }
}

/// A run of sections fits in one frame: each section can be written and all
/// of them together are short enough for the frame's `u32` length.
pub open spec fn fits_frame(ss: Seq<SectionView>) -> bool {
    valid_sections(ss) && sections_bytes(ss).len() <= u32::MAX
}

/// The bytes of a frame: the length of its sections' bytes, then those bytes.
pub open spec fn frame_bytes(ss: Seq<SectionView>) -> Seq<u8> {
    spec_u32_to_le_bytes(sections_bytes(ss).len() as u32) + sections_bytes(ss)
}

/// What stands at the head of a byte stream.
pub enum FrameParse {
    /// The stream has ended: no byte is left.
    End,
    /// The stream ends in the middle of a frame.
    Short,
    /// A whole frame is there, but its content is no run of sections.
    Malformed,
    /// A frame with these sections, taking this many bytes of the stream.
    Frame(Seq<SectionView>, int),
}

/// Reads the head of a byte stream that holds `stream` and nothing after it.
pub open spec fn parse_frame(stream: Seq<u8>) -> FrameParse {
    if stream.len() == 0 {
        FrameParse::End
    } else if stream.len() < LEN_BYTES {
        FrameParse::Short
    } else {
        let n = spec_u32_from_le_bytes(stream.subrange(0, 4)) as int;
        if stream.len() < 4 + n {
            FrameParse::Short
        } else {
            match parse_sections(stream.subrange(4, 4 + n)) {
                None => FrameParse::Malformed,
                Some(ss) => FrameParse::Frame(ss, 4 + n),
            }
        }
    }
}

/// A section that can be written is read back from the head of its bytes,
/// whatever follows them.
pub proof fn lemma_parse_section_bytes(s: SectionView, rest: Seq<u8>)
    requires
        valid_section(s),
    ensures
        parse_section(section_bytes(s) + rest) == Some((s, section_bytes(s).len() as int)),
        section_bytes(s).len() >= 2,
{
    lemma_auto_spec_u32_to_from_le_bytes();
    let bytes = section_bytes(s) + rest;
    match s {
        SectionView::U8(v) => {},
        SectionView::U32(v) => {
            assert(bytes.subrange(1, 5) =~= spec_u32_to_le_bytes(v));
        },
        SectionView::Str(cs) => {
            let body = encode_utf8(cs);
            assert(bytes.subrange(1, 5) =~= spec_u32_to_le_bytes(body.len() as u32));
            assert(bytes.subrange(5, 5 + body.len() as int) =~= body);
            encode_utf8_valid_utf8(cs);
            encode_utf8_decode_utf8(cs);
        },
        SectionView::Bytes(b) => {
            assert(bytes.subrange(1, 5) =~= spec_u32_to_le_bytes(b.len() as u32));
            assert(bytes.subrange(5, 5 + b.len() as int) =~= b);
        },
    }
}

/// Writing a run of sections and reading the bytes back gives the same
/// sections, in the same order.
pub proof fn lemma_sections_round_trip(ss: Seq<SectionView>)
    requires
        valid_sections(ss),
    ensures
        parse_sections(sections_bytes(ss)) == Some(ss),
    decreases ss.len(),
{
    if ss.len() == 0 {
    } else {
        let rest = ss.drop_first();
        let bytes = sections_bytes(ss);
        lemma_parse_section_bytes(ss[0], sections_bytes(rest));
        let n = section_bytes(ss[0]).len() as int;
        assert(bytes.skip(n) =~= sections_bytes(rest));
        assert(valid_sections(rest)) by {
            assert forall|i: int| 0 <= i < rest.len() implies valid_section(#[trigger] rest[i]) by {
                assert(rest[i] == ss[i + 1]);
            }
        }
        lemma_sections_round_trip(rest);
        assert(seq![ss[0]] + rest =~= ss);
    }
}

/// A frame that is written to a stream is read back from the head of that
/// stream with the same sections, and takes exactly the bytes that were
/// written.
pub proof fn lemma_frame_round_trip(ss: Seq<SectionView>, rest: Seq<u8>)
    requires
        fits_frame(ss),
    ensures
        parse_frame(frame_bytes(ss) + rest) == FrameParse::Frame(ss, frame_bytes(ss).len() as int),
{
    lemma_auto_spec_u32_to_from_le_bytes();
    let body = sections_bytes(ss);
    let stream = frame_bytes(ss) + rest;
    assert(stream.subrange(0, 4) =~= spec_u32_to_le_bytes(body.len() as u32));
    assert(stream.subrange(4, 4 + body.len() as int) =~= body);
    lemma_sections_round_trip(ss);
}

/// The frame after a run of values has been pushed onto it, one by one.
pub open spec fn pushed_all(ss: Seq<SectionView>, values: Seq<SectionView>) -> Seq<SectionView>
    decreases values.len(),
{
    if values.len() == 0 {
        ss
    } else {
        pushed_all(ss.push(values[0]), values.drop_first())
    }
}

/// The frame after `n` sections have been taken from its head.
pub open spec fn popped(ss: Seq<SectionView>, n: nat) -> Seq<SectionView>
    decreases n,
{
    if n == 0 {
        ss
    } else {
        popped(ss.drop_first(), (n - 1) as nat)
    }
}

/// Pushing values one by one puts them behind what the frame holds, in the
/// order in which they were pushed.
pub proof fn lemma_pushed_all(ss: Seq<SectionView>, values: Seq<SectionView>)
    ensures
        pushed_all(ss, values) == ss + values,
    decreases values.len(),
{
    if values.len() == 0 {
        assert(ss + values =~= ss);
    } else {
        lemma_pushed_all(ss.push(values[0]), values.drop_first());
        assert(ss.push(values[0]) + values.drop_first() =~= ss + values);
    }
}

/// Taking `n` sections from a frame that holds at least as many leaves the
/// sections behind them.
pub proof fn lemma_popped(ss: Seq<SectionView>, n: nat)
    requires
        n <= ss.len(),
    ensures
        popped(ss, n) == ss.skip(n as int),
    decreases n,
{
    if n == 0 {
        assert(ss.skip(0) =~= ss);
    } else {
        lemma_popped(ss.drop_first(), (n - 1) as nat);
        assert(ss.drop_first().skip(n - 1) =~= ss.skip(n as int));
    }
}

/// What is pushed into a frame comes out of it in the same order and with
/// the same values, also after the frame went over the wire.
///
/// `values` are pushed into an empty frame, the frame is written and read
/// back. Then pop number `k` of the frame that was read finds value `k` at
/// its head, and after as many pops as there are values the frame is
/// empty, so that one more pop fails.
pub proof fn lemma_round_trip_keeps_order(values: Seq<SectionView>, k: nat)
    requires
        fits_frame(values),
        k <= values.len(),
    ensures
        ({
            let sent = pushed_all(Seq::empty(), values);
            let read = parse_frame(frame_bytes(sent));
            &&& read == FrameParse::Frame(values, frame_bytes(sent).len() as int)
            &&& k < values.len() ==> popped(values, k).len() > 0 && popped(values, k)[0]
                == values[k as int]
            &&& k == values.len() ==> popped(values, k).len() == 0
        }),
{
    lemma_pushed_all(Seq::empty(), values);
    assert(Seq::<SectionView>::empty() + values =~= values);
    lemma_frame_round_trip(values, Seq::empty());
    assert(frame_bytes(values) + Seq::<u8>::empty() =~= frame_bytes(values));
    lemma_popped(values, k);
}

/// Reading is the inverse of writing on every byte sequence that can be
/// read: the sections that are read from some bytes can all be written, and
/// writing them gives those bytes again. So no two byte sequences are read
/// as the same run of sections.
pub proof fn lemma_parse_sections_inverse(bytes: Seq<u8>)
    requires
        parse_sections(bytes) is Some,
    ensures
        valid_sections(parse_sections(bytes)->0),
        sections_bytes(parse_sections(bytes)->0) == bytes,
    decreases bytes.len(),
{
    if bytes.len() == 0 {
        assert(sections_bytes(Seq::<SectionView>::empty()) =~= bytes);
    } else {
        let (s, n) = parse_section(bytes)->0;
        lemma_parse_section_inverse(bytes);
        let rest = parse_sections(bytes.skip(n))->0;
        lemma_parse_sections_inverse(bytes.skip(n));
        let all = seq![s] + rest;
        assert(all[0] == s);
        assert(all.drop_first() =~= rest);
        assert(section_bytes(s) + bytes.skip(n) =~= bytes);
        assert(valid_sections(all)) by {
            assert forall|i: int| 0 <= i < all.len() implies valid_section(#[trigger] all[i]) by {
                if i > 0 {
                    assert(all[i] == rest[i - 1]);
                }
            }
        }
    }
}

/// The section that is read from the head of some bytes can be written,
/// and writing it gives the bytes that were read.
pub proof fn lemma_parse_section_inverse(bytes: Seq<u8>)
    requires
        parse_section(bytes) is Some,
    ensures
        ({
            let (s, n) = parse_section(bytes)->0;
            &&& 2 <= n <= bytes.len()
            &&& valid_section(s)
            &&& section_bytes(s) == bytes.take(n)
        }),
{
    lemma_auto_spec_u32_to_from_le_bytes();
    let (s, n) = parse_section(bytes)->0;
    if bytes[0] == TAG_U8 {
        assert(section_bytes(s) =~= bytes.take(n));
    } else {
        let word = bytes.subrange(1, 5);
        assert(spec_u32_to_le_bytes(spec_u32_from_le_bytes(word)) == word);
        if bytes[0] == TAG_U32 {
            assert(section_bytes(s) =~= bytes.take(n));
        } else {
            let len = spec_u32_from_le_bytes(word) as int;
            let body = bytes.subrange(5, 5 + len);
            if bytes[0] == TAG_STR {
                vstd::utf8::decode_utf8_encode_utf8(body);
            }
            assert(section_bytes(s) =~= bytes.take(n));
        }
    }
}

/// The tag under which a section is written.
pub open spec fn section_tag(s: SectionView) -> u8 {
    match s {
        SectionView::U8(_) => TAG_U8,
        SectionView::U32(_) => TAG_U32,
        SectionView::Str(_) => TAG_STR,
        SectionView::Bytes(_) => TAG_BYTES,
    }
}

/// The total length of the frame whose length prefix starts the stream, or
/// `None` where the stream holds fewer bytes than a length prefix.
pub open spec fn spec_frame_len(stream: Seq<u8>) -> Option<int> {
    if stream.len() < LEN_BYTES {
        None
    } else {
        Some(4 + spec_u32_from_le_bytes(stream.subrange(0, 4)) as int)
    }
}

/// Calls `String::from_utf8` of the standard library. The contract claims
/// that it accepts exactly the byte sequences that are well-formed UTF-8,
/// and that the string it returns holds the characters they encode.
#[verifier::external_body]
fn string_from_utf8(bytes: Vec<u8>) -> (res: Option<String>)
    ensures
        match res {
            Some(s) => valid_utf8(bytes@) && s@ == decode_utf8(bytes@),
            None => !valid_utf8(bytes@),
        },
{
    match String::from_utf8(bytes) {
        Ok(s) => Some(s),
        Err(_) => None,
    }
}

/// Reads the section that starts at `pos`.
fn read_section(bytes: &[u8], pos: usize) -> (res: Option<(Section, usize)>)
    requires
        pos <= bytes@.len(),
    ensures
        match parse_section(bytes@.skip(pos as int)) {
            Some((s, n)) => res matches Some((sec, next)) && sec@ == s && next == pos + n && pos
                < next <= bytes@.len() && valid_section(s),
            None => res is None,
        },
{
    let len = bytes.len();
    let ghost tail = bytes@.skip(pos as int);
    if len - pos < 2 {
        return None;
    }
    let tag = bytes[pos];
    assert(tail[0] == bytes@[pos as int]);
    if tag == TAG_U8 {
        assert(tail[1] == bytes@[pos + 1]);
        return Some((Section::U8(bytes[pos + 1]), pos + 2));
    }
    if len - pos < 5 {
        return None;
    }
    let word = u32_from_le_bytes(slice_subrange(bytes, pos + 1, pos + 5));
    assert(tail.subrange(1, 5) =~= bytes@.subrange(pos + 1, pos + 5));
    if tag == TAG_U32 {
        return Some((Section::U32(word), pos + 5));
    }
    if tag != TAG_STR && tag != TAG_BYTES {
        return None;
    }
    let n = word as usize;
    if len - pos - 5 < n {
        return None;
    }
    let body = slice_to_vec(slice_subrange(bytes, pos + 5, pos + 5 + n));
    assert(tail.subrange(5, 5 + n) =~= body@);
    if tag == TAG_BYTES {
        return Some((Section::Bytes(body), pos + 5 + n));
    }
    proof {
        if valid_utf8(body@) {
            vstd::utf8::decode_utf8_encode_utf8(body@);
        }
    }
    match string_from_utf8(body) {
        Some(s) => Some((Section::Str(s), pos + 5 + n)),
        None => None,
    }
}

/// Appends the bytes of one section, unless its content is too long to be
/// written; says whether it did.
fn write_section(section: &Section, out: &mut Vec<u8>) -> (written: bool)
    ensures
        written == valid_section(section@),
        written ==> final(out)@ == old(out)@ + section_bytes(section@),
        !written ==> final(out)@ == old(out)@,
{
    match section {
        Section::U8(v) => {
            out.push(TAG_U8);
            out.push(*v);
            assert(out@ =~= old(out)@ + section_bytes(section@));
        },
        Section::U32(v) => {
            out.push(TAG_U32);
            let mut word = u32_to_le_bytes(*v);
            out.append(&mut word);
            assert(out@ =~= old(out)@ + section_bytes(section@));
        },
        Section::Str(s) => {
            let content = s.as_str().as_bytes();
            if content.len() > u32::MAX as usize {
                return false;
            }
            out.push(TAG_STR);
            let mut word = u32_to_le_bytes(content.len() as u32);
            out.append(&mut word);
            let mut body = slice_to_vec(content);
            out.append(&mut body);
            assert(out@ =~= old(out)@ + section_bytes(section@));
        },
        Section::Bytes(b) => {
            if b.len() > u32::MAX as usize {
                return false;
            }
            out.push(TAG_BYTES);
            let mut word = u32_to_le_bytes(b.len() as u32);
            out.append(&mut word);
            let mut body = slice_to_vec(b.as_slice());
            out.append(&mut body);
            assert(out@ =~= old(out)@ + section_bytes(section@));
        },
    }
    true
}

/// A message frame: a queue of typed sections.
///
/// Its view is the run of sections that are still to be taken, oldest first.
/// A frame that is filled through `push` and its typed forms holds only
/// sections that can be written.
#[derive(Debug)]
pub struct MessageBuf {
    sections: VecDeque<Section>,
}

impl View for MessageBuf {
    type V = Seq<SectionView>;

    closed spec fn view(&self) -> Seq<SectionView> {
        self.sections@.map_values(|s: Section| s@)
    }
}

impl MessageBuf {
    /// A frame without sections.
    pub fn empty() -> (msg: MessageBuf)
        ensures
            msg@ == Seq::<SectionView>::empty(),
    {
        let msg = MessageBuf { sections: VecDeque::new() };
        assert(msg@ =~= Seq::<SectionView>::empty());
        msg
    }

    /// The number of sections that are still to be taken.
    pub fn len(&self) -> (n: usize)
        ensures
            n == self@.len(),
    {
        self.sections.len()
    }

    /// Appends a section at the tail. A string or a byte block of more than
    /// `u32::MAX` bytes is refused and leaves the frame as it was.
    pub fn push(&mut self, section: Section) -> (res: Result<(), Error>)
        ensures
            valid_sections(old(self)@) ==> valid_sections(final(self)@),
            valid_section(section@) ==> res is Ok && final(self)@ == old(self)@.push(section@),
            !valid_section(section@) ==> res == Err::<(), Error>(Error::Encoding) && final(self)@
                == old(self)@,
    {
        let fits = match &section {
            Section::U8(_) => true,
            Section::U32(_) => true,
            Section::Str(s) => s.as_str().as_bytes().len() <= u32::MAX as usize,
            Section::Bytes(b) => b.len() <= u32::MAX as usize,
        };
        if !fits {
            return Err(Error::Encoding);
        }
        self.sections.push_back(section);
        assert(self@ =~= old(self)@.push(section@));
        Ok(())
    }

    /// Appends a byte.
    pub fn push_u8(&mut self, value: u8) -> (res: Result<(), Error>)
        ensures
            valid_sections(old(self)@) ==> valid_sections(final(self)@),
            res is Ok,
            final(self)@ == old(self)@.push(SectionView::U8(value)),
    {
        self.push(Section::U8(value))
    }

    /// Appends a 32-bit unsigned integer.
    pub fn push_u32(&mut self, value: u32) -> (res: Result<(), Error>)
        ensures
            valid_sections(old(self)@) ==> valid_sections(final(self)@),
            res is Ok,
            final(self)@ == old(self)@.push(SectionView::U32(value)),
    {
        self.push(Section::U32(value))
    }

    /// Appends a string, unless its UTF-8 form is longer than `u32::MAX`
    /// bytes.
    pub fn push_str(&mut self, value: &str) -> (res: Result<(), Error>)
        ensures
            valid_sections(old(self)@) ==> valid_sections(final(self)@),
            encode_utf8(value@).len() <= u32::MAX ==> res is Ok && final(self)@ == old(self)@.push(
                SectionView::Str(value@),
            ),
            encode_utf8(value@).len() > u32::MAX ==> res == Err::<(), Error>(Error::Encoding)
                && final(self)@ == old(self)@,
    {
        self.push(Section::Str(value.to_owned()))
    }

    /// Appends a block of bytes, unless it is longer than `u32::MAX` bytes.
    pub fn push_bytes(&mut self, value: Vec<u8>) -> (res: Result<(), Error>)
        ensures
            valid_sections(old(self)@) ==> valid_sections(final(self)@),
            value@.len() <= u32::MAX ==> res is Ok && final(self)@ == old(self)@.push(
                SectionView::Bytes(value@),
            ),
            value@.len() > u32::MAX ==> res == Err::<(), Error>(Error::Encoding) && final(self)@
                == old(self)@,
    {
        self.push(Section::Bytes(value))
    }

    /// The tag of the section at the head, or 0 where the frame is empty.
    pub fn head_tag(&self) -> (tag: u8)
        ensures
            tag == (if self@.len() == 0 {
                0u8
            } else {
                section_tag(self@[0])
            }),
    {
        if self.sections.len() == 0 {
            return 0;
        }
        match &self.sections[0] {
            Section::U8(_) => TAG_U8,
            Section::U32(_) => TAG_U32,
            Section::Str(_) => TAG_STR,
            Section::Bytes(_) => TAG_BYTES,
        }
    }

    /// Takes the section at the head, whatever its type.
    pub fn pop(&mut self) -> (res: Option<Section>)
        ensures
            valid_sections(old(self)@) ==> valid_sections(final(self)@),
            match res {
                Some(section) => old(self)@.len() > 0 && section@ == old(self)@[0] && final(self)@
                    == old(self)@.drop_first(),
                None => old(self)@.len() == 0 && final(self)@ == old(self)@,
            },
    {
        let res = self.sections.pop_front();
        proof {
            if res is Some {
                assert(self@ =~= old(self)@.drop_first());
            } else {
                assert(self@ =~= old(self)@);
            }
        }
        res
    }

    /// Takes the section at the head as a byte. Fails, and leaves the frame
    /// as it was, where there is no section or it holds another type.
    pub fn pop_u8(&mut self) -> (res: Result<u8, Error>)
        ensures
            valid_sections(old(self)@) ==> valid_sections(final(self)@),
            match res {
                Ok(value) => old(self)@.len() > 0 && old(self)@[0] == SectionView::U8(value)
                    && final(self)@ == old(self)@.drop_first(),
                Err(e) => e == Error::Decoding && final(self)@ == old(self)@ && !(old(self)@.len()
                    > 0 && old(self)@[0] is U8),
            },
    {
        if self.head_tag() != TAG_U8 {
            return Err(Error::Decoding);
        }
        match self.pop() {
            Some(Section::U8(value)) => Ok(value),
            _ => Err(Error::Decoding),
        }
    }

    /// Takes the section at the head as a 32-bit unsigned integer. Fails,
    /// and leaves the frame as it was, where there is no section or it holds
    /// another type.
    pub fn pop_u32(&mut self) -> (res: Result<u32, Error>)
        ensures
            valid_sections(old(self)@) ==> valid_sections(final(self)@),
            match res {
                Ok(value) => old(self)@.len() > 0 && old(self)@[0] == SectionView::U32(value)
                    && final(self)@ == old(self)@.drop_first(),
                Err(e) => e == Error::Decoding && final(self)@ == old(self)@ && !(old(self)@.len()
                    > 0 && old(self)@[0] is U32),
            },
    {
        if self.head_tag() != TAG_U32 {
            return Err(Error::Decoding);
        }
        match self.pop() {
            Some(Section::U32(value)) => Ok(value),
            _ => Err(Error::Decoding),
        }
    }

    /// Takes the section at the head as a string. Fails, and leaves the
    /// frame as it was, where there is no section or it holds another type.
    pub fn pop_string(&mut self) -> (res: Result<String, Error>)
        ensures
            valid_sections(old(self)@) ==> valid_sections(final(self)@),
            match res {
                Ok(value) => old(self)@.len() > 0 && old(self)@[0] == SectionView::Str(value@)
                    && final(self)@ == old(self)@.drop_first(),
                Err(e) => e == Error::Decoding && final(self)@ == old(self)@ && !(old(self)@.len()
                    > 0 && old(self)@[0] is Str),
            },
    {
        if self.head_tag() != TAG_STR {
            return Err(Error::Decoding);
        }
        match self.pop() {
            Some(Section::Str(value)) => Ok(value),
            _ => Err(Error::Decoding),
        }
    }

    /// Takes the section at the head as a block of bytes. Fails, and leaves
    /// the frame as it was, where there is no section or it holds another
    /// type.
    pub fn pop_bytes(&mut self) -> (res: Result<Vec<u8>, Error>)
        ensures
            valid_sections(old(self)@) ==> valid_sections(final(self)@),
            match res {
                Ok(value) => old(self)@.len() > 0 && old(self)@[0] == SectionView::Bytes(value@)
                    && final(self)@ == old(self)@.drop_first(),
                Err(e) => e == Error::Decoding && final(self)@ == old(self)@ && !(old(self)@.len()
                    > 0 && old(self)@[0] is Bytes),
            },
    {
        if self.head_tag() != TAG_BYTES {
            return Err(Error::Decoding);
        }
        match self.pop() {
            Some(Section::Bytes(value)) => Ok(value),
            _ => Err(Error::Decoding),
        }
    }

    /// The bytes of the sections, without a length in front. Fails where a
    /// section is too long to be written.
    pub fn to_bytes(&self) -> (res: Result<Vec<u8>, Error>)
        ensures
            match res {
                Ok(bytes) => valid_sections(self@) && bytes@ == sections_bytes(self@),
                Err(e) => !valid_sections(self@) && e == Error::Encoding,
            },
    {
        let mut out: Vec<u8> = Vec::new();
        let n = self.sections.len();
        let mut i: usize = 0;
        assert(self@.skip(0) =~= self@);
        while i < n
            invariant
                i <= n,
                n == self@.len(),
                n == self.sections@.len(),
                forall|j: int| 0 <= j < i ==> valid_section(#[trigger] self@[j]),
                out@ + sections_bytes(self@.skip(i as int)) == sections_bytes(self@),
            decreases n - i,
        {
            let ghost before = out@;
            let ghost tail = self@.skip(i as int);
            assert(tail[0] == self@[i as int]);
            assert(tail.drop_first() =~= self@.skip(i + 1));
            if !write_section(&self.sections[i], &mut out) {
                return Err(Error::Encoding);
            }
            assert(out@ + sections_bytes(self@.skip(i + 1)) =~= before + sections_bytes(tail));
            i += 1;
        }
        assert(out@ + sections_bytes(self@.skip(n as int)) =~= out@);
        Ok(out)
    }

    /// Reads a run of sections. Fails with a framing error exactly where the
    /// bytes are not one complete section after another.
    pub fn from_bytes(bytes: &[u8]) -> (res: Result<MessageBuf, Error>)
        ensures
            match parse_sections(bytes@) {
                Some(ss) => res matches Ok(msg) && msg@ == ss && valid_sections(ss),
                None => res matches Err(e) && e == Error::Framing,
            },
    {
        let mut sections: VecDeque<Section> = VecDeque::new();
        let len = bytes.len();
        let mut pos: usize = 0;
        assert(bytes@.skip(0) =~= bytes@);
        while pos < len
            invariant
                pos <= len,
                len == bytes@.len(),
                valid_sections(sections@.map_values(|s: Section| s@)),
                parse_sections(bytes@) == (match parse_sections(bytes@.skip(pos as int)) {
                    Some(rest) => Some(sections@.map_values(|s: Section| s@) + rest),
                    None => None,
                }),
            decreases len - pos,
        {
            let ghost done = sections@.map_values(|s: Section| s@);
            let ghost tail = bytes@.skip(pos as int);
            match read_section(bytes, pos) {
                None => {
                    return Err(Error::Framing);
                },
                Some((section, next)) => {
                    assert(tail.skip(next - pos) =~= bytes@.skip(next as int));
                    sections.push_back(section);
                    proof {
                        let now = sections@.map_values(|s: Section| s@);
                        assert(now =~= done.push(section@));
                        match parse_sections(bytes@.skip(next as int)) {
                            Some(rest) => {
                                assert(now + rest =~= done + (seq![section@] + rest));
                            },
                            None => {},
                        }
                    }
                    pos = next;
                },
            }
        }
        let msg = MessageBuf { sections };
        assert(msg@ + Seq::<SectionView>::empty() =~= msg@);
        Ok(msg)
    }

    /// Appends the frame to a byte stream: the length of its sections'
    /// bytes, then those bytes. A frame that does not fit (a section is too
    /// long, or all of them take more than `u32::MAX` bytes) is refused and
    /// nothing is written.
    pub fn write(&self, stream: &mut Vec<u8>) -> (res: Result<(), Error>)
        ensures
            fits_frame(self@) ==> res is Ok && final(stream)@ == old(stream)@ + frame_bytes(self@),
            !fits_frame(self@) ==> res == Err::<(), Error>(Error::Encoding) && final(stream)@
                == old(stream)@,
    {
        let mut body = match self.to_bytes() {
            Ok(body) => body,
            Err(e) => {
                return Err(e);
            },
        };
        if body.len() > u32::MAX as usize {
            return Err(Error::Encoding);
        }
        let mut word = u32_to_le_bytes(body.len() as u32);
        stream.append(&mut word);
        stream.append(&mut body);
        assert(stream@ =~= old(stream)@ + frame_bytes(self@));
        Ok(())
    }

    /// The total length of the frame at the head of a stream, as its length
    /// prefix gives it; `None` where fewer bytes than a prefix are there.
    pub fn frame_len(stream: &[u8]) -> (res: Option<u64>)
        ensures
            match spec_frame_len(stream@) {
                Some(n) => res == Some(n as u64) && n <= u64::MAX,
                None => res is None,
            },
    {
        if stream.len() < LEN_BYTES {
            return None;
        }
        let word = u32_from_le_bytes(slice_subrange(stream, 0, 4));
        Some(4 + word as u64)
    }

    /// Reads the frame at the head of a byte stream that ends after
    /// `stream`.
    ///
    /// Gives `Ok(None)` where the stream has ended, the frame and the number
    /// of bytes it took where a whole frame is there, an I/O error where the
    /// stream ends in the middle of a frame, and a framing error where the
    /// frame's content is no run of sections.
    pub fn read(stream: &[u8]) -> (res: Result<Option<(MessageBuf, usize)>, Error>)
        ensures
            match parse_frame(stream@) {
                FrameParse::End => res matches Ok(None),
                FrameParse::Short => res matches Err(e) && e == Error::Io,
                FrameParse::Malformed => res matches Err(e) && e == Error::Framing,
                FrameParse::Frame(ss, n) => res matches Ok(Some((msg, taken))) && msg@ == ss
                    && taken == n && valid_sections(ss),
            },
    {
        let len = stream.len();
        if len == 0 {
            return Ok(None);
        }
        if len < LEN_BYTES {
            return Err(Error::Io);
        }
        let word = u32_from_le_bytes(slice_subrange(stream, 0, 4));
        let n = word as usize;
        if len - 4 < n {
            return Err(Error::Io);
        }
        match MessageBuf::from_bytes(slice_subrange(stream, 4, 4 + n)) {
            Ok(msg) => Ok(Some((msg, 4 + n))),
            Err(_) => Err(Error::Framing),
        }
    }
}

} // verus!
