use deckctl::color::Color;
use deckctl::dispatch::{first_pressed, next_action, read_keys, DeviceError, PollAction, POLLING_RATE_MS};
use deckctl::pactl::{
    concerns_sink, list_sinks, mute_differs, read_event, Error, Event, EventDst, MuteAction, Sink,
    SinkState,
};
use deckctl::session::{
    answer_or_no_response, recording_toggle, Outcome, Phase, Request, RequestError, Session, Step,
};
use deckctl::typemap::TypeMap;

#[test]
fn test_color() {
    // The channels keep their order: the green channel is the tuple's second
    // item.
    assert_eq!(
        Color::from((32, 65, 128)),
        Color {
            r: 32,
            g: 65,
            b: 128
        }
    );
    assert_ne!(
        Color::from((32, 65, 128)),
        Color {
            r: 32,
            g: 56,
            b: 128
        }
    );
}

#[test]
fn color_from_u32_takes_low_bytes_in_order() {
    assert_eq!(Color::from(0x00_03_02_01u32), Color { r: 1, g: 2, b: 3 });
    assert_eq!(Color::from(0xff_00_00_00u32), Color { r: 0, g: 0, b: 0 });
}

#[test]
fn event_change_on_sink() {
    assert_eq!(
        read_event(b"Event 'change' on sink #3"),
        Ok((Event::Change, EventDst::Sink(3)))
    );
    assert_eq!(
        read_event(b"Event 'change' on sink #3\n"),
        Ok((Event::Change, EventDst::Sink(3)))
    );
}

#[test]
fn event_unknown_kind_is_decode_error() {
    assert_eq!(read_event(b"Event 'bogus' on sink #3"), Err(Error::DeserializeError));
}

#[test]
fn event_unknown_type_is_decode_error() {
    assert_eq!(
        read_event(b"Event 'new' on unknownthing #3"),
        Err(Error::DeserializeError)
    );
}

#[test]
fn event_every_kind_and_type() {
    assert_eq!(
        read_event(b"Event 'new' on source-output #12"),
        Ok((Event::New, EventDst::SourceOutput(12)))
    );
    assert_eq!(
        read_event(b"Event 'remove' on sink-input #0"),
        Ok((Event::Remove, EventDst::SinkInput(0)))
    );
    assert_eq!(
        read_event(b"Event 'new' on client #4294967295"),
        Ok((Event::New, EventDst::Client(4294967295)))
    );
    assert_eq!(read_event(b"Event 'new' on card #1"), Ok((Event::New, EventDst::Card(1))));
    assert_eq!(read_event(b"Event 'new' on source #+5"), Ok((Event::New, EventDst::Source(5))));
}

#[test]
fn event_bad_index_is_decode_error() {
    assert_eq!(read_event(b"Event 'new' on sink 3"), Err(Error::DeserializeError));
    assert_eq!(read_event(b"Event 'new' on sink #"), Err(Error::DeserializeError));
    assert_eq!(read_event(b"Event 'new' on sink #4294967296"), Err(Error::DeserializeError));
    assert_eq!(read_event(b"Event 'new' on sink #3x"), Err(Error::DeserializeError));
}

#[test]
fn event_malformed_lines() {
    assert_eq!(read_event(b""), Err(Error::Malformed));
    assert_eq!(read_event(b"Event 'new' on sink"), Err(Error::Malformed));
    assert_eq!(read_event(b"Evt 'new' on sink #3"), Err(Error::Malformed));
    assert_eq!(read_event(b"Event 'new' at sink #3"), Err(Error::Malformed));
}

#[test]
fn sink_block_decodes() {
    let lines: Vec<&[u8]> = vec![b"Sink #7", b"\tState: RUNNING", b"\tMute: yes"];
    let sink = Sink::deserialize(&lines).unwrap();
    assert_eq!(sink.id, 7);
    assert_eq!(sink.state, SinkState::Running);
    assert!(sink.mute);
}

#[test]
fn sink_block_texts_and_unknown_keys() {
    let lines: Vec<&[u8]> = vec![
        b"Sink #2",
        b"\tName: alsa_output.analog-stereo",
        b"\tDescription:  Built-in Audio",
        b"\tSample Specification: s16le 2ch 44100Hz",
        b"\tUnknown Key: whatever",
        b"\tno colon here",
        b"\tMute: no",
        b"\tState: IDLE",
    ];
    let sink = Sink::deserialize(&lines).unwrap();
    assert_eq!(sink.id, 2);
    assert_eq!(sink.name, "alsa_output.analog-stereo");
    assert_eq!(sink.description, " Built-in Audio");
    assert_eq!(sink.sample_specification, "s16le 2ch 44100Hz");
    assert_eq!(sink.driver, "");
    assert!(!sink.mute);
    assert_eq!(sink.state, SinkState::Idle);
}

#[test]
fn sink_block_bad_state_or_heading() {
    let bad_state: Vec<&[u8]> = vec![b"Sink #1", b"\tState: ASLEEP"];
    assert!(Sink::deserialize(&bad_state).is_none());
    let bad_head: Vec<&[u8]> = vec![b"Source #1"];
    assert!(Sink::deserialize(&bad_head).is_none());
    let bad_text: Vec<&[u8]> = vec![b"Sink #1", b"\tName: \xff"];
    assert!(Sink::deserialize(&bad_text).is_none());
}

#[test]
fn list_of_two_sinks() {
    let out = b"Sink #0\n\tState: SUSPENDED\n\tName: a\n\nSink #1\n\tState: RUNNING\n\tMute: yes\n\tName: b\n";
    let sinks = list_sinks(out).unwrap();
    assert_eq!(sinks.len(), 2);
    assert_eq!(sinks[0].id, 0);
    assert_eq!(sinks[0].state, SinkState::Suspended);
    assert_eq!(sinks[0].name, "a");
    assert_eq!(sinks[1].id, 1);
    assert!(sinks[1].mute);
    assert_eq!(sinks[1].name, "b");
}

#[test]
fn list_edge_cases() {
    assert_eq!(list_sinks(b"").unwrap().len(), 0);
    assert_eq!(list_sinks(b"\n\n").unwrap().len(), 0);
    assert_eq!(list_sinks(b"Sink #7\n\tState: RUNNING\n\tMute: yes").unwrap()[0].id, 7);
    assert_eq!(list_sinks(b"Sink #1\n\nnonsense\n").err(), Some(Error::DeserializeError));
}

#[test]
fn default_sink_mute_tracking() {
    assert!(concerns_sink((Event::Change, EventDst::Sink(1))));
    assert!(!concerns_sink((Event::New, EventDst::Sink(1))));
    assert!(!concerns_sink((Event::Change, EventDst::Source(1))));
    let sinks = list_sinks(b"Sink #0\n\tName: a\n\tMute: yes\n\nSink #1\n\tName: b\n").unwrap();
    assert!(mute_differs(&sinks, "a", false));
    assert!(!mute_differs(&sinks, "a", true));
    assert!(mute_differs(&sinks, "b", true));
    assert!(!mute_differs(&sinks, "c", true));
}

#[test]
fn read_with_no_data_is_none() {
    assert_eq!(read_keys(Err(DeviceError::NoData)), Ok(None));
    assert_eq!(read_keys(Err(DeviceError::Fatal)), Err(DeviceError::Fatal));
    assert_eq!(read_keys(Ok(vec![0, 1])), Ok(Some(vec![0, 1])));
}

#[test]
fn no_data_waits_the_polling_interval() {
    assert_eq!(next_action(&None, POLLING_RATE_MS), PollAction::Wait(500));
}

#[test]
fn no_pressed_key_reads_again() {
    assert_eq!(next_action(&Some(vec![0, 0, 0]), 500), PollAction::Read);
    assert_eq!(next_action(&Some(vec![]), 500), PollAction::Read);
}

#[test]
fn one_pressed_key_is_clicked() {
    assert_eq!(next_action(&Some(vec![0, 0, 1, 0]), 500), PollAction::Click(2));
}

#[test]
fn lowest_pressed_key_wins() {
    assert_eq!(next_action(&Some(vec![0, 1, 0, 1, 1]), 500), PollAction::Click(1));
    assert_eq!(first_pressed(&[2, 0, 1]), Some(2));
}

#[test]
fn registry_insert_get_overwrite() {
    let mut m = TypeMap::new();
    assert!(m.get::<u32>().is_none());
    m.insert(5u32);
    assert_eq!(m.get::<u32>(), Some(&5));
    m.insert(9u32);
    assert_eq!(m.get::<u32>(), Some(&9));
    assert!(m.get::<String>().is_none());
    assert!(!m.contains_key::<String>());
    assert!(m.contains_key::<u32>());
    if let Some(v) = m.get_mut::<u32>() {
        *v = 11;
    }
    assert_eq!(m.get::<u32>(), Some(&11));
    assert_eq!(m.remove::<u32>(), Some(11));
    assert!(!m.contains_key::<u32>());
    assert_eq!(m.remove::<u32>(), None);
}

#[test]
fn registry_claims_once() {
    let mut m = TypeMap::new();
    assert!(m.insert_if_absent(String::from("first")));
    assert!(!m.insert_if_absent(String::from("second")));
    assert_eq!(m.get::<String>().map(|s| s.as_str()), Some("first"));
}

#[test]
fn session_backoff_and_stop() {
    let mut s = Session::new(Some(1000));
    assert_eq!(s.advance(Outcome::ConnectFailed), Step::Wait(1000));
    assert_eq!(s.phase, Phase::Connecting);
    assert_eq!(s.advance(Outcome::Connected), Step::Serve);
    assert_eq!(s.advance(Outcome::ConnectionClosed), Step::Connect);
    let mut t = Session::new(None);
    assert_eq!(t.advance(Outcome::ConnectFailed), Step::Stop);
    assert!(!t.answers());
    assert_eq!(t.advance(Outcome::Connected), Step::Stop);
    assert_eq!(answer_or_no_response::<bool>(None), Err(RequestError::NoResponse));
    assert_eq!(answer_or_no_response(Some(Ok(true))), Ok(true));
    assert_eq!(
        answer_or_no_response::<bool>(Some(Err(RequestError::Failed))),
        Err(RequestError::Failed)
    );
}

#[test]
fn recording_toggles() {
    assert_eq!(recording_toggle(true), Request::RecordingStop);
    assert_eq!(recording_toggle(false), Request::RecordingStart);
}

#[test]
fn mute_arguments() {
    assert_eq!(MuteAction::On.as_arg(), "1");
    assert_eq!(MuteAction::Off.as_arg(), "0");
    assert_eq!(MuteAction::Toggle.as_arg(), "toggle");
}

#[test]
fn sink_defaults() {
    let sink = Sink::default();
    assert_eq!(sink.id, 0);
    assert_eq!(sink.state, SinkState::Undefined);
    assert_eq!(SinkState::default(), SinkState::Undefined);
    assert!(!sink.mute);
    assert_eq!(sink, Sink::blank());
}
