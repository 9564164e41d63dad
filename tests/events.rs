use midly::{ErrorKind, Event, EventKind, Fps, MetaMessage, MidiMessage};
use midly::{u14, u24, u28, u4, u7};

fn k(v: u8) -> u7 {
    u7::new(v).unwrap()
}

fn ch(v: u8) -> u4 {
    u4::new(v).unwrap()
}

fn read_one(input: &[u8], rs: &mut Option<u8>) -> Result<(usize, Event<'static>), ErrorKind> {
    let owned: &'static [u8] = Box::leak(input.to_vec().into_boxed_slice());
    let mut raw = owned;
    let (bytes, ev) = Event::read(&mut raw, rs)?;
    assert_eq!(bytes.len(), owned.len() - raw.len());
    Ok((bytes.len(), ev))
}

#[test]
fn note_on_then_running_note_off() {
    let input = [0x00u8, 0x90, 0x3C, 0x7F, 0x60, 0x80, 0x3C, 0x00];
    let mut raw: &[u8] = &input;
    let mut rs: Option<u8> = None;
    let (bytes, ev) = Event::read(&mut raw, &mut rs).unwrap();
    assert_eq!(bytes, &input[0..4]);
    assert_eq!(ev.delta.as_int(), 0);
    assert_eq!(ev.kind, EventKind::Midi { channel: ch(0), message: MidiMessage::NoteOn(k(60), k(127)) });
    assert_eq!(rs, Some(0x90));
    let (bytes, ev) = Event::read(&mut raw, &mut rs).unwrap();
    assert_eq!(bytes, &input[4..8]);
    assert_eq!(ev.delta.as_int(), 96);
    assert_eq!(ev.kind, EventKind::Midi { channel: ch(0), message: MidiMessage::NoteOff(k(60), k(0)) });
    assert_eq!(rs, Some(0x80));
    assert!(raw.is_empty());
}

#[test]
fn running_status_implicit() {
    let input = [0x00u8, 0x90, 0x3C, 0x40, 0x10, 0x3E, 0x40];
    let mut raw: &[u8] = &input;
    let mut rs: Option<u8> = None;
    let (_, ev) = Event::read(&mut raw, &mut rs).unwrap();
    assert_eq!(ev.delta.as_int(), 0);
    assert_eq!(ev.kind, EventKind::Midi { channel: ch(0), message: MidiMessage::NoteOn(k(60), k(64)) });
    let (bytes, ev) = Event::read(&mut raw, &mut rs).unwrap();
    assert_eq!(bytes, &input[4..7]);
    assert_eq!(ev.delta.as_int(), 16);
    assert_eq!(ev.kind, EventKind::Midi { channel: ch(0), message: MidiMessage::NoteOn(k(62), k(64)) });
    assert_eq!(rs, Some(0x90));
}

#[test]
fn missing_running_status() {
    let mut rs: Option<u8> = None;
    assert_eq!(read_one(&[0x00, 0x3C, 0x40], &mut rs).unwrap_err(), ErrorKind::MissingRunningStatus);
    assert_eq!(rs, None);
}

#[test]
fn tempo_meta() {
    let mut rs: Option<u8> = None;
    let (n, ev) = read_one(&[0x00, 0xFF, 0x51, 0x03, 0x07, 0xA1, 0x20], &mut rs).unwrap();
    assert_eq!(n, 7);
    assert_eq!(ev.delta.as_int(), 0);
    assert_eq!(ev.kind, EventKind::Meta(MetaMessage::Tempo(u24::new(500000).unwrap())));
    assert_eq!(rs, None);
    let mut rs: Option<u8> = Some(0x93);
    read_one(&[0x00, 0xFF, 0x51, 0x03, 0x07, 0xA1, 0x20], &mut rs).unwrap();
    assert_eq!(rs, Some(0x93));
}

#[test]
fn end_of_track() {
    let mut rs: Option<u8> = None;
    let (n, ev) = read_one(&[0x00, 0xFF, 0x2F, 0x00], &mut rs).unwrap();
    assert_eq!(n, 4);
    assert_eq!(ev.delta.as_int(), 0);
    assert_eq!(ev.kind, EventKind::Meta(MetaMessage::EndOfTrack));
}

#[test]
fn sysex_with_two_byte_length() {
    let mut input: Vec<u8> = vec![0x00, 0xF0, 0x81, 0x48];
    for i in 0..200u32 {
        input.push((i % 128) as u8);
    }
    input.push(0x7F);
    let mut raw: &[u8] = &input;
    let mut rs: Option<u8> = Some(0xB2);
    let (bytes, ev) = Event::read(&mut raw, &mut rs).unwrap();
    assert_eq!(bytes.len(), 204);
    match ev.kind {
        EventKind::SysEx(p) => {
            assert_eq!(p.len(), 200);
            assert_eq!(p, &input[4..204]);
            assert_eq!(p.as_ptr(), input[4..].as_ptr());
        }
        _ => panic!("expected a system-exclusive event"),
    }
    assert_eq!(raw, &[0x7F]);
    assert_eq!(rs, Some(0xB2));
}

#[test]
fn system_events_keep_running_status() {
    let input = [0x00u8, 0x91, 0x40, 0x50, 0x00, 0xF7, 0x01, 0x55, 0x00, 0xFF, 0x01, 0x02, 0x68, 0x69, 0x05, 0x41, 0x00];
    let mut raw: &[u8] = &input;
    let mut rs: Option<u8> = None;
    Event::read(&mut raw, &mut rs).unwrap();
    let (_, ev) = Event::read(&mut raw, &mut rs).unwrap();
    assert_eq!(ev.kind, EventKind::Escape(&[0x55]));
    assert_eq!(rs, Some(0x91));
    let (bytes, ev) = Event::read(&mut raw, &mut rs).unwrap();
    assert_eq!(bytes.len(), 6);
    assert_eq!(ev.kind, EventKind::Meta(MetaMessage::Text(b"hi")));
    assert_eq!(rs, Some(0x91));
    let (_, ev) = Event::read(&mut raw, &mut rs).unwrap();
    assert_eq!(ev.delta.as_int(), 5);
    assert_eq!(ev.kind, EventKind::Midi { channel: ch(1), message: MidiMessage::NoteOn(k(0x41), k(0)) });
}

#[test]
fn channel_messages() {
    let mut rs: Option<u8> = None;
    let cases: Vec<(Vec<u8>, u8, MidiMessage)> = vec![
        (vec![0x00, 0xA3, 0x10, 0x20], 3, MidiMessage::Aftertouch(k(0x10), k(0x20))),
        (vec![0x00, 0xB4, 0x07, 0x64], 4, MidiMessage::Controller(k(7), k(100))),
        (vec![0x00, 0xC5, 0x07], 5, MidiMessage::ProgramChange(k(7))),
        (vec![0x00, 0xDF, 0x33], 15, MidiMessage::ChannelAftertouch(k(0x33))),
        (vec![0x00, 0xE0, 0x00, 0x40], 0, MidiMessage::PitchBend(u14::new(0x2000).unwrap())),
        (vec![0x00, 0xE1, 0x7F, 0x01], 1, MidiMessage::PitchBend(u14::new(0xFF).unwrap())),
    ];
    for (input, c, m) in cases {
        let (n, ev) = read_one(&input, &mut rs).unwrap();
        assert_eq!(n, input.len());
        assert_eq!(ev.kind, EventKind::Midi { channel: ch(c), message: m });
        assert_eq!(rs, Some(input[1]));
    }
}

#[test]
fn data_byte_with_high_bit_is_rejected() {
    let mut rs: Option<u8> = Some(0x90);
    assert_eq!(read_one(&[0x00, 0x80, 0x3C, 0x80], &mut rs).unwrap_err(), ErrorKind::MalformedInteger);
    assert_eq!(rs, Some(0x90));
}

#[test]
fn short_input() {
    let mut rs: Option<u8> = None;
    assert_eq!(read_one(&[], &mut rs).unwrap_err(), ErrorKind::ShortInput);
    assert_eq!(read_one(&[0x00], &mut rs).unwrap_err(), ErrorKind::ShortInput);
    assert_eq!(read_one(&[0x00, 0x90, 0x3C], &mut rs).unwrap_err(), ErrorKind::ShortInput);
    assert_eq!(read_one(&[0x00, 0xF0, 0x03, 0x01], &mut rs).unwrap_err(), ErrorKind::ShortInput);
    assert_eq!(read_one(&[0x00, 0xFF, 0x2F], &mut rs).unwrap_err(), ErrorKind::ShortInput);
    assert_eq!(rs, None);
}

#[test]
fn invalid_status() {
    let mut rs: Option<u8> = Some(0x90);
    assert_eq!(read_one(&[0x00, 0xF1, 0x00], &mut rs).unwrap_err(), ErrorKind::InvalidStatus);
    assert_eq!(read_one(&[0x00, 0xFE], &mut rs).unwrap_err(), ErrorKind::InvalidStatus);
    assert_eq!(rs, Some(0x90));
}

#[test]
fn delta_longer_than_four_bytes() {
    let mut rs: Option<u8> = None;
    assert_eq!(read_one(&[0x80, 0x80, 0x80, 0x80, 0x00, 0xFF, 0x2F, 0x00], &mut rs).unwrap_err(), ErrorKind::MalformedInteger);
}

#[test]
fn four_byte_delta() {
    let mut rs: Option<u8> = None;
    let (n, ev) = read_one(&[0xFF, 0xFF, 0xFF, 0x7F, 0xFF, 0x2F, 0x00], &mut rs).unwrap();
    assert_eq!(n, 7);
    assert_eq!(ev.delta.as_int(), 0x0FFF_FFFF);
}

#[test]
fn varlen_round_trip() {
    let values: [u32; 10] = [0, 1, 0x7F, 0x80, 0x3FFF, 0x4000, 0x1F_FFFF, 0x20_0000, 500000, 0x0FFF_FFFF];
    let lens: [usize; 10] = [1, 1, 1, 2, 2, 3, 3, 4, 3, 4];
    for i in 0..values.len() {
        let v = u28::new(values[i]).unwrap();
        let enc = v.write_varlen();
        assert_eq!(enc.len(), lens[i]);
        let mut input = enc.clone();
        input.extend_from_slice(&[0xFF, 0x2F, 0x00]);
        let mut rs: Option<u8> = None;
        let (n, ev) = read_one(&input, &mut rs).unwrap();
        assert_eq!(n, enc.len() + 3);
        assert_eq!(ev.delta.as_int(), values[i]);
    }
    assert_eq!(u28::new(200).unwrap().write_varlen(), vec![0x81, 0x48]);
}

#[test]
fn meta_messages() {
    let mut rs: Option<u8> = None;
    let (_, ev) = read_one(&[0x00, 0xFF, 0x00, 0x00], &mut rs).unwrap();
    assert_eq!(ev.kind, EventKind::Meta(MetaMessage::TrackNumber(None)));
    let (_, ev) = read_one(&[0x00, 0xFF, 0x00, 0x02, 0x01, 0x02], &mut rs).unwrap();
    assert_eq!(ev.kind, EventKind::Meta(MetaMessage::TrackNumber(Some(0x0102))));
    let (_, ev) = read_one(&[0x00, 0xFF, 0x03, 0x01, 0x41], &mut rs).unwrap();
    assert_eq!(ev.kind, EventKind::Meta(MetaMessage::TrackName(b"A")));
    let (_, ev) = read_one(&[0x00, 0xFF, 0x7F, 0x02, 0x00, 0x99], &mut rs).unwrap();
    assert_eq!(ev.kind, EventKind::Meta(MetaMessage::SequencerSpecific(&[0x00, 0x99])));
    let (_, ev) = read_one(&[0x00, 0xFF, 0x20, 0x01, 0x0F], &mut rs).unwrap();
    assert_eq!(ev.kind, EventKind::Meta(MetaMessage::MidiChannel(ch(15))));
    let (_, ev) = read_one(&[0x00, 0xFF, 0x21, 0x01, 0x7F], &mut rs).unwrap();
    assert_eq!(ev.kind, EventKind::Meta(MetaMessage::MidiPort(k(127))));
    let (_, ev) = read_one(&[0x00, 0xFF, 0x58, 0x04, 0x06, 0x03, 0x18, 0x08], &mut rs).unwrap();
    assert_eq!(ev.kind, EventKind::Meta(MetaMessage::TimeSignature(6, 3, 24, 8)));
    let (_, ev) = read_one(&[0x00, 0xFF, 0x59, 0x02, 0xFD, 0x01], &mut rs).unwrap();
    assert_eq!(ev.kind, EventKind::Meta(MetaMessage::KeySignature(-3, true)));
    let (_, ev) = read_one(&[0x00, 0xFF, 0x59, 0x02, 0x04, 0x00], &mut rs).unwrap();
    assert_eq!(ev.kind, EventKind::Meta(MetaMessage::KeySignature(4, false)));
    assert_eq!(rs, None);
}

#[test]
fn smpte_offset() {
    let mut rs: Option<u8> = None;
    let (_, ev) = read_one(&[0x00, 0xFF, 0x54, 0x05, 0x61, 0x02, 0x03, 0x04, 0x05], &mut rs).unwrap();
    match ev.kind {
        EventKind::Meta(MetaMessage::SmpteOffset(t)) => {
            assert_eq!((t.hr, t.mn, t.se, t.fr, t.ff), (0x61, 2, 3, 4, 5));
            assert_eq!(t.hour(), 1);
            assert_eq!(t.fps(), Fps::Fps25);
        }
        _ => panic!("expected an SMPTE offset"),
    }
    let (_, ev) = read_one(&[0x00, 0xFF, 0x54, 0x05, 0xD7, 0x00, 0x00, 0x00, 0x00], &mut rs).unwrap();
    match ev.kind {
        EventKind::Meta(MetaMessage::SmpteOffset(t)) => {
            assert_eq!(t.hour(), 23);
            assert_eq!(t.fps(), Fps::Fps30);
        }
        _ => panic!("expected an SMPTE offset"),
    }
}

#[test]
fn meta_errors() {
    let mut rs: Option<u8> = Some(0xC0);
    assert_eq!(read_one(&[0x00, 0xFF, 0x51, 0x02, 0x07, 0xA1], &mut rs).unwrap_err(), ErrorKind::MetaLengthMismatch);
    assert_eq!(read_one(&[0x00, 0xFF, 0x2F, 0x01, 0x00], &mut rs).unwrap_err(), ErrorKind::MetaLengthMismatch);
    assert_eq!(read_one(&[0x00, 0xFF, 0x00, 0x01, 0x00], &mut rs).unwrap_err(), ErrorKind::MetaLengthMismatch);
    assert_eq!(read_one(&[0x00, 0xFF, 0x59, 0x01, 0x00], &mut rs).unwrap_err(), ErrorKind::MetaLengthMismatch);
    assert_eq!(read_one(&[0x00, 0xFF, 0x10, 0x00], &mut rs).unwrap_err(), ErrorKind::UnknownMetaType);
    assert_eq!(read_one(&[0x00, 0xFF, 0x20, 0x01, 0x10], &mut rs).unwrap_err(), ErrorKind::MalformedInteger);
    assert_eq!(read_one(&[0x00, 0xFF, 0x21, 0x01, 0x80], &mut rs).unwrap_err(), ErrorKind::MalformedInteger);
    assert_eq!(rs, Some(0xC0));
}

#[test]
fn bit_width_constructors() {
    assert!(u4::new(15).is_some() && u4::new(16).is_none());
    assert!(u7::new(127).is_some() && u7::new(128).is_none());
    assert!(u14::new(0x3FFF).is_some() && u14::new(0x4000).is_none());
    assert!(u24::new(0xFF_FFFF).is_some() && u24::new(0x100_0000).is_none());
    assert!(u28::new(0x0FFF_FFFF).is_some() && u28::new(0x1000_0000).is_none());
    assert_eq!(u7::new(100).unwrap().as_int(), 100);
}

#[test]
fn seven_bit_fields_stay_below_128() {
    let input = [0x00u8, 0x9F, 0x7F, 0x7F, 0x00, 0xCF, 0x7F, 0x00, 0xFF, 0x21, 0x01, 0x7F];
    let mut raw: &[u8] = &input;
    let mut rs: Option<u8> = None;
    while !raw.is_empty() {
        let (_, ev) = Event::read(&mut raw, &mut rs).unwrap();
        match ev.kind {
            EventKind::Midi { message, .. } => match message {
                MidiMessage::NoteOn(a, b) => assert!(a.as_int() <= 127 && b.as_int() <= 127),
                MidiMessage::ProgramChange(a) => assert!(a.as_int() <= 127),
                _ => panic!("unexpected message"),
            },
            EventKind::Meta(MetaMessage::MidiPort(p)) => assert_eq!(p.as_int(), 127),
            _ => panic!("unexpected event"),
        }
    }
}

#[test]
fn event_kind_read_starts_at_status() {
    let input = [0x90u8, 0x3C, 0x40, 0x3E, 0x41];
    let mut raw: &[u8] = &input;
    let mut rs: Option<u8> = None;
    let (bytes, kind) = EventKind::read(&mut raw, &mut rs).unwrap();
    assert_eq!(bytes, &input[0..3]);
    assert_eq!(kind, EventKind::Midi { channel: ch(0), message: MidiMessage::NoteOn(k(60), k(64)) });
    let (bytes, kind) = EventKind::read(&mut raw, &mut rs).unwrap();
    assert_eq!(bytes, &input[3..5]);
    assert_eq!(kind, EventKind::Midi { channel: ch(0), message: MidiMessage::NoteOn(k(62), k(65)) });
}
