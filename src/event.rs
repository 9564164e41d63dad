//! Track events: their types, what they mean as values, and their decoder.
use vstd::prelude::*;
use crate::primitive::{
    advanced, be16, lemma_vlq_scan_len, be24, lemma_advanced_trans, read_u16, read_u8, read_varlen_slice, spec_smpte,
    spec_u14, spec_u7, spec_varlen_slice, spec_vlq, ErrorKind, SmpteTime, u14, u24, u28, u4, u7,
};

verus! {

/// A MIDI channel message, without its channel.
#[derive(Clone, Copy, Debug, PartialEq, Eq, Structural, Hash)]
pub enum MidiMessage {
    /// Stop playing a note: key and velocity.
    NoteOff(u7, u7),
    /// Start playing a note: key and velocity.
    NoteOn(u7, u7),
    /// Change the pressure on a held note: key and pressure.
    Aftertouch(u7, u7),
    /// Set a controller: controller and value.
    Controller(u7, u7),
    /// Change the program (instrument) of the channel.
    ProgramChange(u7),
    /// Change the pressure on all notes of the channel.
    ChannelAftertouch(u7),
    /// Set the pitch bend; `0x2000` is no bend.
    PitchBend(u14),
}

/// A channel message as plain numbers.
pub enum MidiView {
    NoteOff(nat, nat),
    NoteOn(nat, nat),
    Aftertouch(nat, nat),
    Controller(nat, nat),
    ProgramChange(nat),
    ChannelAftertouch(nat),
    PitchBend(nat),
}

impl View for MidiMessage {
    type V = MidiView;

    open spec fn view(&self) -> MidiView {
        match *self {
            MidiMessage::NoteOff(k, v) => MidiView::NoteOff(k@, v@),
            MidiMessage::NoteOn(k, v) => MidiView::NoteOn(k@, v@),
            MidiMessage::Aftertouch(k, v) => MidiView::Aftertouch(k@, v@),
            MidiMessage::Controller(c, v) => MidiView::Controller(c@, v@),
            MidiMessage::ProgramChange(p) => MidiView::ProgramChange(p@),
            MidiMessage::ChannelAftertouch(p) => MidiView::ChannelAftertouch(p@),
            MidiMessage::PitchBend(b) => MidiView::PitchBend(b@),
        }
    }
}

/// The two-argument message that the high nibble `hi` of a status selects.
pub open spec fn two_arg_message(hi: u8, a: nat, b: nat) -> MidiView {
    if hi == 0x8 {
        MidiView::NoteOff(a, b)
    } else if hi == 0x9 {
        MidiView::NoteOn(a, b)
    } else if hi == 0xA {
        MidiView::Aftertouch(a, b)
    } else {
        MidiView::Controller(a, b)
    }
}

/// The channel message that `status` announces, read from the front of `s`,
/// and the number of bytes it takes.
pub open spec fn spec_midi(status: u8, s: Seq<u8>) -> Result<(MidiView, nat), ErrorKind> {
    let hi = status / 16;
    if hi == 0xC || hi == 0xD {
        match spec_u7(s) {
            Err(e) => Err(e),
            Ok(a) => Ok(
                (
                    if hi == 0xC {
                        MidiView::ProgramChange(a)
                    } else {
                        MidiView::ChannelAftertouch(a)
                    },
                    1,
                ),
            ),
        }
    } else if hi == 0xE {
        match spec_u14(s) {
            Err(e) => Err(e),
            Ok(v) => Ok((MidiView::PitchBend(v), 2)),
        }
    } else {
        match spec_u7(s) {
            Err(e) => Err(e),
            Ok(a) => match spec_u7(s.drop_first()) {
                Err(e) => Err(e),
                Ok(b) => Ok((two_arg_message(hi, a, b), 2)),
            },
        }
    }
}

impl MidiMessage {
    /// Reads the arguments of a channel message whose status byte, given
    /// apart so that running status can supply it, is `status`.
    pub fn read<'a>(raw: &mut &'a [u8], status: u8) -> (r: Result<MidiMessage, ErrorKind>)
        requires
            0x80 <= status <= 0xEF,
        ensures
            match spec_midi(status, old(raw)@) {
                Ok((m, n)) => r is Ok && r.unwrap()@ == m && advanced(old(raw)@, final(raw)@, n),
                Err(e) => r is Err && r->Err_0 == e,
            },
    {
        let ghost s0 = raw@;
        let hi = status / 16;
        if hi == 0xC || hi == 0xD {
            let a = u7::read(raw)?;
            if hi == 0xC {
                Ok(MidiMessage::ProgramChange(a))
            } else {
                Ok(MidiMessage::ChannelAftertouch(a))
            }
        } else if hi == 0xE {
            let v = u14::read_u7(raw)?;
            Ok(MidiMessage::PitchBend(v))
        } else {
            let a = u7::read(raw)?;
            let ghost s1 = raw@;
            assert(s1 == s0.drop_first());
            let b = u7::read(raw)?;
            proof {
                lemma_advanced_trans(s0, s1, raw@, 1, 1);
            }
            if hi == 0x8 {
                Ok(MidiMessage::NoteOff(a, b))
            } else if hi == 0x9 {
                Ok(MidiMessage::NoteOn(a, b))
            } else if hi == 0xA {
                Ok(MidiMessage::Aftertouch(a, b))
            } else {
                Ok(MidiMessage::Controller(a, b))
            }
        }
    }
}

/// A meta message: an annotation of the file, with payloads borrowed from
/// the input.
#[derive(Clone, Copy, Debug, PartialEq, Eq, Hash)]
pub enum MetaMessage<'a> {
    /// The sequence number; absent when the payload is empty.
    TrackNumber(Option<u16>),
    Text(&'a [u8]),
    Copyright(&'a [u8]),
    TrackName(&'a [u8]),
    InstrumentName(&'a [u8]),
    Lyric(&'a [u8]),
    Marker(&'a [u8]),
    CuePoint(&'a [u8]),
    ProgramName(&'a [u8]),
    DeviceName(&'a [u8]),
    MidiChannel(u4),
    MidiPort(u7),
    /// Ends the track.
    EndOfTrack,
    /// Microseconds per quarter note.
    Tempo(u24),
    SmpteOffset(SmpteTime),
    /// Numerator, log2 of the denominator, MIDI clocks per click, 32nd notes
    /// per quarter note.
    TimeSignature(u8, u8, u8, u8),
    /// Sharps (positive) or flats (negative), and `true` for a minor key.
    KeySignature(i8, bool),
    SequencerSpecific(&'a [u8]),
}

/// A meta message as plain values.
pub enum MetaView {
    TrackNumber(Option<u16>),
    Text(Seq<u8>),
    Copyright(Seq<u8>),
    TrackName(Seq<u8>),
    InstrumentName(Seq<u8>),
    Lyric(Seq<u8>),
    Marker(Seq<u8>),
    CuePoint(Seq<u8>),
    ProgramName(Seq<u8>),
    DeviceName(Seq<u8>),
    MidiChannel(nat),
    MidiPort(nat),
    EndOfTrack,
    Tempo(nat),
    SmpteOffset(SmpteTime),
    TimeSignature(u8, u8, u8, u8),
    KeySignature(int, bool),
    SequencerSpecific(Seq<u8>),
}

impl<'a> View for MetaMessage<'a> {
    type V = MetaView;

    open spec fn view(&self) -> MetaView {
        match *self {
            MetaMessage::TrackNumber(n) => MetaView::TrackNumber(n),
            MetaMessage::Text(d) => MetaView::Text(d@),
            MetaMessage::Copyright(d) => MetaView::Copyright(d@),
            MetaMessage::TrackName(d) => MetaView::TrackName(d@),
            MetaMessage::InstrumentName(d) => MetaView::InstrumentName(d@),
            MetaMessage::Lyric(d) => MetaView::Lyric(d@),
            MetaMessage::Marker(d) => MetaView::Marker(d@),
            MetaMessage::CuePoint(d) => MetaView::CuePoint(d@),
            MetaMessage::ProgramName(d) => MetaView::ProgramName(d@),
            MetaMessage::DeviceName(d) => MetaView::DeviceName(d@),
            MetaMessage::MidiChannel(c) => MetaView::MidiChannel(c@),
            MetaMessage::MidiPort(p) => MetaView::MidiPort(p@),
            MetaMessage::EndOfTrack => MetaView::EndOfTrack,
            MetaMessage::Tempo(t) => MetaView::Tempo(t@),
            MetaMessage::SmpteOffset(t) => MetaView::SmpteOffset(t),
            MetaMessage::TimeSignature(a, b, c, d) => MetaView::TimeSignature(a, b, c, d),
            MetaMessage::KeySignature(k, m) => MetaView::KeySignature(k as int, m),
            MetaMessage::SequencerSpecific(d) => MetaView::SequencerSpecific(d@),
        }
    }
}

/// The byte `b` read as a two's complement signed integer.
pub open spec fn signed_byte(b: u8) -> int {
    if b < 0x80 {
        b as int
    } else {
        b as int - 0x100
    }
}

/// The payload length that a meta type requires, for the types that fix one.
pub open spec fn meta_fixed_len(t: u8) -> Option<nat> {
    if t == 0x20 || t == 0x21 {
        Some(1)
    } else if t == 0x2F {
        Some(0)
    } else if t == 0x51 {
        Some(3)
    } else if t == 0x54 {
        Some(5)
    } else if t == 0x58 {
        Some(4)
    } else if t == 0x59 {
        Some(2)
    } else {
        None
    }
}

/// Whether `t` is one of the text-like meta types, whose payload is any
/// byte string.
pub open spec fn is_blob_meta(t: u8) -> bool {
    (0x01 <= t && t <= 0x09) || t == 0x7F
}

/// The meta message of type `t` with payload `d`.
pub open spec fn spec_meta_payload(t: u8, d: Seq<u8>) -> Result<MetaView, ErrorKind> {
    if t == 0x00 {
        if d.len() == 0 {
            Ok(MetaView::TrackNumber(None))
        } else if d.len() == 2 {
            Ok(MetaView::TrackNumber(Some(be16(d) as u16)))
        } else {
            Err(ErrorKind::MetaLengthMismatch)
        }
    } else if is_blob_meta(t) {
        Ok(
            if t == 0x01 {
                MetaView::Text(d)
            } else if t == 0x02 {
                MetaView::Copyright(d)
            } else if t == 0x03 {
                MetaView::TrackName(d)
            } else if t == 0x04 {
                MetaView::InstrumentName(d)
            } else if t == 0x05 {
                MetaView::Lyric(d)
            } else if t == 0x06 {
                MetaView::Marker(d)
            } else if t == 0x07 {
                MetaView::CuePoint(d)
            } else if t == 0x08 {
                MetaView::ProgramName(d)
            } else if t == 0x09 {
                MetaView::DeviceName(d)
            } else {
                MetaView::SequencerSpecific(d)
            },
        )
    } else if meta_fixed_len(t) is None {
        Err(ErrorKind::UnknownMetaType)
    } else if d.len() != meta_fixed_len(t).unwrap() {
        Err(ErrorKind::MetaLengthMismatch)
    } else if t == 0x20 {
        if d[0] < 16 {
            Ok(MetaView::MidiChannel(d[0] as nat))
        } else {
            Err(ErrorKind::MalformedInteger)
        }
    } else if t == 0x21 {
        if d[0] < 0x80 {
            Ok(MetaView::MidiPort(d[0] as nat))
        } else {
            Err(ErrorKind::MalformedInteger)
        }
    } else if t == 0x2F {
        Ok(MetaView::EndOfTrack)
    } else if t == 0x51 {
        Ok(MetaView::Tempo(be24(d)))
    } else if t == 0x54 {
        Ok(MetaView::SmpteOffset(spec_smpte(d)))
    } else if t == 0x58 {
        Ok(MetaView::TimeSignature(d[0], d[1], d[2], d[3]))
    } else {
        Ok(MetaView::KeySignature(signed_byte(d[0]), d[1] != 0))
    }
}

/// The meta message at the front of `s` (just after its `0xFF` status):
/// a type byte, then a length-prefixed payload. Also the bytes it takes.
pub open spec fn spec_meta(s: Seq<u8>) -> Result<(MetaView, nat), ErrorKind> {
    if s.len() == 0 {
        Err(ErrorKind::ShortInput)
    } else {
        match spec_varlen_slice(s.drop_first()) {
            Err(e) => Err(e),
            Ok((d, n)) => match spec_meta_payload(s[0], d) {
                Err(e) => Err(e),
                Ok(m) => Ok((m, n + 1)),
            },
        }
    }
}

impl<'a> MetaMessage<'a> {
    /// Reads a meta message, the cursor standing just after its `0xFF`
    /// status byte.
    pub fn read(raw: &mut &'a [u8]) -> (r: Result<MetaMessage<'a>, ErrorKind>)
        ensures
            match spec_meta(old(raw)@) {
                Ok((m, n)) => r is Ok && r.unwrap()@ == m && advanced(old(raw)@, final(raw)@, n),
                Err(e) => r is Err && r->Err_0 == e,
            },
    {
        let ghost s0 = raw@;
        let type_byte = read_u8(raw)?;
        let ghost s1 = raw@;
        assert(s1 == s0.drop_first());
        let data = read_varlen_slice(raw)?;
        proof {
            let n = (s1.len() - raw@.len()) as nat;
            lemma_advanced_trans(s0, s1, raw@, 1, n);
        }
        let ghost d = data@;
        let len = data.len();
        let mut cur = data;
        match type_byte {
            0x00 => {
                if len == 0 {
                    Ok(MetaMessage::TrackNumber(None))
                } else if len == 2 {
                    let v = read_u16(&mut cur)?;
                    Ok(MetaMessage::TrackNumber(Some(v)))
                } else {
                    Err(ErrorKind::MetaLengthMismatch)
                }
            },
            0x01 => Ok(MetaMessage::Text(data)),
            0x02 => Ok(MetaMessage::Copyright(data)),
            0x03 => Ok(MetaMessage::TrackName(data)),
            0x04 => Ok(MetaMessage::InstrumentName(data)),
            0x05 => Ok(MetaMessage::Lyric(data)),
            0x06 => Ok(MetaMessage::Marker(data)),
            0x07 => Ok(MetaMessage::CuePoint(data)),
            0x08 => Ok(MetaMessage::ProgramName(data)),
            0x09 => Ok(MetaMessage::DeviceName(data)),
            0x20 => {
                if len != 1 {
                    return Err(ErrorKind::MetaLengthMismatch);
                }
                match u4::new(data[0]) {
                    Some(c) => Ok(MetaMessage::MidiChannel(c)),
                    None => Err(ErrorKind::MalformedInteger),
                }
            },
            0x21 => {
                if len != 1 {
                    return Err(ErrorKind::MetaLengthMismatch);
                }
                let p = u7::read(&mut cur)?;
                Ok(MetaMessage::MidiPort(p))
            },
            0x2F => {
                if len != 0 {
                    return Err(ErrorKind::MetaLengthMismatch);
                }
                Ok(MetaMessage::EndOfTrack)
            },
            0x51 => {
                if len != 3 {
                    return Err(ErrorKind::MetaLengthMismatch);
                }
                let t = u24::read(&mut cur)?;
                Ok(MetaMessage::Tempo(t))
            },
            0x54 => {
                if len != 5 {
                    return Err(ErrorKind::MetaLengthMismatch);
                }
                let t = SmpteTime::read(&mut cur)?;
                Ok(MetaMessage::SmpteOffset(t))
            },
            0x58 => {
                if len != 4 {
                    return Err(ErrorKind::MetaLengthMismatch);
                }
                Ok(MetaMessage::TimeSignature(data[0], data[1], data[2], data[3]))
            },
            0x59 => {
                if len != 2 {
                    return Err(ErrorKind::MetaLengthMismatch);
                }
                let k = data[0];
                let sharps: i8 = if k < 0x80 {
                    k as i8
                } else {
                    (k as i16 - 0x100) as i8
                };
                Ok(MetaMessage::KeySignature(sharps, data[1] != 0))
            },
            0x7F => Ok(MetaMessage::SequencerSpecific(data)),
            _ => Err(ErrorKind::UnknownMetaType),
        }
    }
}

/// What an event does: a channel message, a system-exclusive message, an
/// escape sequence or a meta message. Payloads are borrowed from the input.
#[derive(Clone, Copy, Debug, PartialEq, Eq, Hash)]
pub enum EventKind<'a> {
    Midi { channel: u4, message: MidiMessage },
    SysEx(&'a [u8]),
    Escape(&'a [u8]),
    Meta(MetaMessage<'a>),
}

/// An event kind as plain values.
pub enum KindView {
    Midi { channel: nat, message: MidiView },
    SysEx(Seq<u8>),
    Escape(Seq<u8>),
    Meta(MetaView),
}

impl<'a> View for EventKind<'a> {
    type V = KindView;

    open spec fn view(&self) -> KindView {
        match *self {
            EventKind::Midi { channel, message } => KindView::Midi {
                channel: channel@,
                message: message@,
            },
            EventKind::SysEx(d) => KindView::SysEx(d@),
            EventKind::Escape(d) => KindView::Escape(d@),
            EventKind::Meta(m) => KindView::Meta(m@),
        }
    }
}

/// A track event: the ticks since the previous event, and what it does.
#[derive(Clone, Copy, Debug, PartialEq, Eq, Hash)]
pub struct Event<'a> {
    pub delta: u28,
    pub kind: EventKind<'a>,
}

/// An event as plain values.
pub struct EventView {
    pub delta: nat,
    pub kind: KindView,
}

impl<'a> View for Event<'a> {
    type V = EventView;

    open spec fn view(&self) -> EventView {
        EventView { delta: self.delta@, kind: self.kind@ }
    }
}

/// Whether `status` is the status byte of a channel message.
pub open spec fn is_channel_status(status: u8) -> bool {
    0x80 <= status && status <= 0xEF
}

/// The event that `status` announces, its arguments read from the front of
/// `s`, and the number of argument bytes it takes.
pub open spec fn spec_dispatch(status: u8, s: Seq<u8>) -> Result<(KindView, nat), ErrorKind> {
    if is_channel_status(status) {
        match spec_midi(status, s) {
            Err(e) => Err(e),
            Ok((m, n)) => Ok((KindView::Midi { channel: (status % 16) as nat, message: m }, n)),
        }
    } else if status == 0xF0 {
        match spec_varlen_slice(s) {
            Err(e) => Err(e),
            Ok((d, n)) => Ok((KindView::SysEx(d), n)),
        }
    } else if status == 0xF7 {
        match spec_varlen_slice(s) {
            Err(e) => Err(e),
            Ok((d, n)) => Ok((KindView::Escape(d), n)),
        }
    } else if status == 0xFF {
        match spec_meta(s) {
            Err(e) => Err(e),
            Ok((m, n)) => Ok((KindView::Meta(m), n)),
        }
    } else {
        Err(ErrorKind::InvalidStatus)
    }
}

/// The event kind at the front of `s` when the running status is `rs`: the
/// kind, the bytes it takes, and the running status after it.
///
/// A first byte with its high bit set is the status; one with it clear is
/// the first argument of a message whose status is the running status. Only
/// a channel status byte sets the running status: system-exclusive, escape
/// and meta events leave it as it was.
pub open spec fn spec_kind(s: Seq<u8>, rs: Option<u8>) -> Result<(KindView, nat, Option<u8>), ErrorKind> {
    if s.len() == 0 {
        Err(ErrorKind::ShortInput)
    } else if s[0] < 0x80 {
        match rs {
            None => Err(ErrorKind::MissingRunningStatus),
            Some(st) => match spec_dispatch(st, s) {
                Err(e) => Err(e),
                Ok((k, n)) => Ok((k, n, rs)),
            },
        }
    } else {
        match spec_dispatch(s[0], s.drop_first()) {
            Err(e) => Err(e),
            Ok((k, n)) => Ok(
                (
                    k,
                    n + 1,
                    if is_channel_status(s[0]) {
                        Some(s[0])
                    } else {
                        rs
                    },
                ),
            ),
        }
    }
}

/// The event at the front of `s` when the running status is `rs`: a delta
/// time, then an event kind. Also the bytes it takes and the running status
/// after it.
pub open spec fn spec_event(s: Seq<u8>, rs: Option<u8>) -> Result<(EventView, nat, Option<u8>), ErrorKind> {
    match spec_vlq(s) {
        Err(e) => Err(e),
        Ok((d, k)) => match spec_kind(s.subrange(k as int, s.len() as int), rs) {
            Err(e) => Err(e),
            Ok((kind, n, rs2)) => Ok((EventView { delta: d, kind }, k + n, rs2)),
        },
    }
}

impl<'a> EventKind<'a> {
    /// Reads an event kind (an event without its delta time), applying and
    /// updating the running status. Returns the bytes it took with the kind,
    /// and advances the cursor past them. On failure the running status is
    /// left as it was.
    pub fn read(raw: &mut &'a [u8], running_status: &mut Option<u8>) -> (r: Result<
        (&'a [u8], EventKind<'a>),
        ErrorKind,
    >)
        ensures
            match spec_kind(old(raw)@, *old(running_status)) {
                Ok((k, n, rs)) => {
                    &&& r is Ok
                    &&& r.unwrap().1@ == k
                    &&& r.unwrap().0@ == old(raw)@.subrange(0, n as int)
                    &&& advanced(old(raw)@, final(raw)@, n)
                    &&& *final(running_status) == rs
                },
                Err(e) => r is Err && r->Err_0 == e && *final(running_status) == *old(
                    running_status,
                ),
            },
            r is Ok && is_channel_status(old(raw)@[0]) ==> *final(running_status) == Some(
                old(raw)@[0],
            ),
            r is Ok && !is_channel_status(old(raw)@[0]) ==> *final(running_status) == *old(
                running_status,
            ),
    {
        let start: &'a [u8] = *raw;
        let ghost s0 = raw@;
        if raw.len() == 0 {
            return Err(ErrorKind::ShortInput);
        }
        let first = raw[0];
        let status: u8;
        if first < 0x80 {
            match *running_status {
                Some(st) => {
                    status = st;
                },
                None => {
                    return Err(ErrorKind::MissingRunningStatus);
                },
            }
        } else {
            status = first;
            let (_, tail) = raw.split_at(1);
            *raw = tail;
        }
        let ghost s1 = raw@;
        let kind = if 0x80 <= status && status <= 0xEF {
            let message = MidiMessage::read(raw, status)?;
            EventKind::Midi { channel: u4::from_low_nibble(status), message }
        } else if status == 0xF0 {
            EventKind::SysEx(read_varlen_slice(raw)?)
        } else if status == 0xF7 {
            EventKind::Escape(read_varlen_slice(raw)?)
        } else if status == 0xFF {
            EventKind::Meta(MetaMessage::read(raw)?)
        } else {
            return Err(ErrorKind::InvalidStatus);
        };
        if 0x80 <= first && first <= 0xEF {
            *running_status = Some(first);
        }
        let used = start.len() - raw.len();
        proof {
            let n1 = (s0.len() - s1.len()) as nat;
            assert(advanced(s0, s1, n1)) by {
                if first < 0x80 {
                    assert(s0 =~= s0.subrange(0, s0.len() as int));
                }
            }
            lemma_advanced_trans(s0, s1, raw@, n1, (s1.len() - raw@.len()) as nat);
        }
        let (bytes, _) = start.split_at(used);
        Ok((bytes, kind))
    }
}

impl<'a> Event<'a> {
    /// Reads one event: its delta time, then its kind, applying and updating
    /// the running status. Returns the bytes it took, delta time included,
    /// with the event, and advances the cursor past them; the event's
    /// payloads are borrowed from the input. On failure the running status is
    /// left as it was.
    pub fn read(raw: &mut &'a [u8], running_status: &mut Option<u8>) -> (r: Result<
        (&'a [u8], Event<'a>),
        ErrorKind,
    >)
        ensures
            match spec_event(old(raw)@, *old(running_status)) {
                Ok((ev, n, rs)) => {
                    &&& r is Ok
                    &&& r.unwrap().1@ == ev
                    &&& r.unwrap().0@ == old(raw)@.subrange(0, n as int)
                    &&& advanced(old(raw)@, final(raw)@, n)
                    &&& *final(running_status) == rs
                },
                Err(e) => r is Err && r->Err_0 == e && *final(running_status) == *old(
                    running_status,
                ),
            },
            r is Ok ==> old(raw)@.len() - final(raw)@.len() == r.unwrap().0@.len(),
    {
        let start: &'a [u8] = *raw;
        let ghost s0 = raw@;
        let delta = u28::read_u7(raw)?;
        let ghost s1 = raw@;
        let (_, kind) = EventKind::read(raw, running_status)?;
        proof {
            lemma_advanced_trans(s0, s1, raw@, (s0.len() - s1.len()) as nat, (s1.len() - raw@.len()) as nat);
        }
        let used = start.len() - raw.len();
        let (bytes, _) = start.split_at(used);
        Ok((bytes, Event { delta, kind }))
    }
}

/// The status an event whose first byte is `b` runs under: `b` itself when
/// its high bit is set, else the running status.
pub open spec fn effective_status(b: u8, rs: Option<u8>) -> u8 {
    if b >= 0x80 {
        b
    } else {
        rs.unwrap()
    }
}

/// The borrowed payload that an event kind carries, if any.
pub open spec fn payload_of(k: KindView) -> Option<Seq<u8>> {
    match k {
        KindView::SysEx(d) => Some(d),
        KindView::Escape(d) => Some(d),
        KindView::Meta(m) => match m {
            MetaView::Text(d) => Some(d),
            MetaView::Copyright(d) => Some(d),
            MetaView::TrackName(d) => Some(d),
            MetaView::InstrumentName(d) => Some(d),
            MetaView::Lyric(d) => Some(d),
            MetaView::Marker(d) => Some(d),
            MetaView::CuePoint(d) => Some(d),
            MetaView::ProgramName(d) => Some(d),
            MetaView::DeviceName(d) => Some(d),
            MetaView::SequencerSpecific(d) => Some(d),
            _ => None,
        },
        KindView::Midi { .. } => None,
    }
}

/// Whether every 7-bit field of an event kind is below 128.
pub open spec fn seven_bit_fields_fit(k: KindView) -> bool {
    match k {
        KindView::Midi { message, .. } => match message {
            MidiView::NoteOff(a, b) => a < 128 && b < 128,
            MidiView::NoteOn(a, b) => a < 128 && b < 128,
            MidiView::Aftertouch(a, b) => a < 128 && b < 128,
            MidiView::Controller(a, b) => a < 128 && b < 128,
            MidiView::ProgramChange(a) => a < 128,
            MidiView::ChannelAftertouch(a) => a < 128,
            MidiView::PitchBend(v) => v < 0x4000,
        },
        KindView::Meta(MetaView::MidiPort(p)) => p < 128,
        _ => true,
    }
}

/// `p` is the last `p.len()` of the first `n` bytes of `s`.
pub open spec fn ends_prefix(s: Seq<u8>, n: nat, p: Seq<u8>) -> bool {
    p.len() <= n <= s.len() && p == s.subrange(n - p.len(), n as int)
}

proof fn lemma_varlen_tail(t: Seq<u8>)
    requires
        spec_varlen_slice(t) is Ok,
    ensures
        ends_prefix(t, spec_varlen_slice(t).unwrap().1, spec_varlen_slice(t).unwrap().0),
{
}

proof fn lemma_meta_payload_is_data(t: u8, d: Seq<u8>)
    requires
        spec_meta_payload(t, d) is Ok,
        payload_of(KindView::Meta(spec_meta_payload(t, d).unwrap())) is Some,
    ensures
        payload_of(KindView::Meta(spec_meta_payload(t, d).unwrap())).unwrap() == d,
{
}

proof fn lemma_dispatch_payload_tail(st: u8, t: Seq<u8>)
    requires
        spec_dispatch(st, t) is Ok,
        payload_of(spec_dispatch(st, t).unwrap().0) is Some,
    ensures
        ends_prefix(t, spec_dispatch(st, t).unwrap().1, payload_of(spec_dispatch(st, t).unwrap().0).unwrap()),
{
    if st == 0xF0 || st == 0xF7 {
        lemma_varlen_tail(t);
    } else {
        let u = t.drop_first();
        lemma_varlen_tail(u);
        let (d, n) = spec_varlen_slice(u).unwrap();
        lemma_meta_payload_is_data(t[0], d);
        let p = payload_of(spec_dispatch(st, t).unwrap().0).unwrap();
        assert(p =~= t.subrange(n + 1 - p.len(), (n + 1) as int));
    }
}

proof fn lemma_kind_payload_tail(s: Seq<u8>, rs: Option<u8>)
    requires
        spec_kind(s, rs) is Ok,
        payload_of(spec_kind(s, rs).unwrap().0) is Some,
    ensures
        ends_prefix(s, spec_kind(s, rs).unwrap().1, payload_of(spec_kind(s, rs).unwrap().0).unwrap()),
{
    if s[0] < 0x80 {
        lemma_dispatch_payload_tail(rs.unwrap(), s);
    } else {
        let t = s.drop_first();
        lemma_dispatch_payload_tail(s[0], t);
        let p = payload_of(spec_kind(s, rs).unwrap().0).unwrap();
        let n = spec_kind(s, rs).unwrap().1;
        assert(p =~= s.subrange(n - p.len(), n as int));
    }
}

/// A channel event leaves the running status at the status it was decoded
/// under: the status byte it carried, or the running status it relied on.
pub proof fn lemma_channel_event_sets_running_status(s: Seq<u8>, rs: Option<u8>)
    requires
        spec_event(s, rs) is Ok,
        spec_event(s, rs).unwrap().0.kind is Midi,
    ensures
        ({
            let k = spec_vlq(s).unwrap().1;
            spec_event(s, rs).unwrap().2 == Some(effective_status(s[k as int], rs))
                && is_channel_status(effective_status(s[k as int], rs))
        }),
{
    let k = spec_vlq(s).unwrap().1;
    lemma_vlq_scan_len(s, 0, 0);
    let u = s.subrange(k as int, s.len() as int);
    assert(u[0] == s[k as int]);
}

/// System-exclusive, escape and meta events leave the running status as it
/// was.
pub proof fn lemma_system_event_keeps_running_status(s: Seq<u8>, rs: Option<u8>)
    requires
        spec_event(s, rs) is Ok,
        !(spec_event(s, rs).unwrap().0.kind is Midi),
    ensures
        spec_event(s, rs).unwrap().2 == rs,
{
}

/// Every 7-bit field of a decoded event is at most 127, and a pitch bend is
/// below `0x4000`.
pub proof fn lemma_seven_bit_fields_fit(s: Seq<u8>, rs: Option<u8>)
    requires
        spec_event(s, rs) is Ok,
    ensures
        seven_bit_fields_fit(spec_event(s, rs).unwrap().0.kind),
{
}

/// A decoded event's payload is the tail of the bytes the event took: it
/// lies inside the input, and is not a copy of bytes from elsewhere.
pub proof fn lemma_payload_within_input(s: Seq<u8>, rs: Option<u8>)
    requires
        spec_event(s, rs) is Ok,
        payload_of(spec_event(s, rs).unwrap().0.kind) is Some,
    ensures
        ends_prefix(s, spec_event(s, rs).unwrap().1, payload_of(spec_event(s, rs).unwrap().0.kind).unwrap()),
{
    let k = spec_vlq(s).unwrap().1;
    lemma_vlq_scan_len(s, 0, 0);
    let u = s.subrange(k as int, s.len() as int);
    lemma_kind_payload_tail(u, rs);
    let p = payload_of(spec_event(s, rs).unwrap().0.kind).unwrap();
    let n = spec_event(s, rs).unwrap().1;
    assert(p =~= s.subrange(n - p.len(), n as int));
}

} // verus!
