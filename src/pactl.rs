//! Decoders for the output of the sound server's command-line tool: the
//! event lines of its `subscribe` command and the blocks of its
//! `list sinks` command.
use vstd::prelude::*;
use vstd::utf8::{decode_utf8, encode_utf8, valid_utf8};
use crate::bytes::{
    ascii, fields, find_byte, same_bytes, first_index, is_word, parse_u32, split_at_byte, text_of, u32_of,
    views,
};

verus! {

/// Why a line or a block of the tool's output could not be decoded.
#[derive(Clone, Copy, Debug, PartialEq, Eq, Structural)]
pub enum Error {
    /// A kind, an object type or a value that the decoder does not know.
    DeserializeError,
    /// A line that lacks the tokens every line of its kind has.
    Malformed,
}

/// What happened to an object of the sound server.
#[derive(Clone, Copy, Debug, PartialEq, Eq, Structural)]
pub enum Event {
    New,
    Change,
    Remove,
}

/// The object that an event is about, with its index.
#[derive(Clone, Copy, Debug, PartialEq, Eq, Structural)]
pub enum EventDst {
    Sink(u32),
    Source(u32),
    Card(u32),
    SourceOutput(u32),
    Client(u32),
    SinkInput(u32),
}

/// The state that the tool reports for a sink.
#[derive(Clone, Copy, Debug, PartialEq, Eq, Structural)]
pub enum SinkState {
    Idle,
    Running,
    Suspended,
    Undefined,
}

/// How a mute command changes the mute flag.
#[derive(Clone, Copy, Debug, PartialEq, Eq, Structural)]
pub enum MuteAction {
    On,
    Off,
    Toggle,
}

impl MuteAction {
    /// The last argument of the tool's mute commands for this action.
    pub fn as_arg(&self) -> (r: &'static str)
        ensures
            *self == MuteAction::On ==> r@ == "1"@,
            *self == MuteAction::Off ==> r@ == "0"@,
            *self == MuteAction::Toggle ==> r@ == "toggle"@,
    {
        match self {
            MuteAction::On => "1",
            MuteAction::Off => "0",
            MuteAction::Toggle => "toggle",
        }
    }
}

/// The event kind that the token `t` (quotes included) names.
pub open spec fn event_of(t: Seq<u8>) -> Option<Event> {
    if t == ascii("'new'"@) {
        Some(Event::New)
    } else if t == ascii("'change'"@) {
        Some(Event::Change)
    } else if t == ascii("'remove'"@) {
        Some(Event::Remove)
    } else {
        None
    }
}

/// The object that the type token `t` and the index token `id` (`#` and
/// digits) name.
pub open spec fn dst_of(t: Seq<u8>, id: Seq<u8>) -> Option<EventDst> {
    if id.len() == 0 || id[0] != 35 {
        None
    } else {
        match u32_of(id.drop_first()) {
            None => None,
            Some(n) => if t == ascii("sink"@) {
                Some(EventDst::Sink(n))
            } else if t == ascii("source"@) {
                Some(EventDst::Source(n))
            } else if t == ascii("card"@) {
                Some(EventDst::Card(n))
            } else if t == ascii("source-output"@) {
                Some(EventDst::SourceOutput(n))
            } else if t == ascii("client"@) {
                Some(EventDst::Client(n))
            } else if t == ascii("sink-input"@) {
                Some(EventDst::SinkInput(n))
            } else {
                None
            },
        }
    }
}

/// A line without the one line feed that may end it.
pub open spec fn without_newline(line: Seq<u8>) -> Seq<u8> {
    if line.len() > 0 && line.last() == 10 {
        line.drop_last()
    } else {
        line
    }
}

/// What the event line `line` (`Event '<kind>' on <type> #<index>`) means.
pub open spec fn event_line(line: Seq<u8>) -> Result<(Event, EventDst), Error> {
    let w = fields(without_newline(line), 32);
    if w.len() < 5 || w[0] != ascii("Event"@) || w[2] != ascii("on"@) {
        Err(Error::Malformed)
    } else {
        match (event_of(w[1]), dst_of(w[3], w[4])) {
            (Some(e), Some(d)) => Ok((e, d)),
            _ => Err(Error::DeserializeError),
        }
    }
}

/// The sink state that the word `t` names.
pub open spec fn state_of(t: Seq<u8>) -> Option<SinkState> {
    if t == ascii("IDLE"@) {
        Some(SinkState::Idle)
    } else if t == ascii("RUNNING"@) {
        Some(SinkState::Running)
    } else if t == ascii("SUSPENDED"@) {
        Some(SinkState::Suspended)
    } else {
        None
    }
}

impl Event {
    /// Decodes the kind token of an event line, quotes included.
    pub fn deserialize(buf: &[u8]) -> (r: Option<Self>)
        ensures
            r == event_of(buf@),
    {
        proof {
            reveal_strlit("'new'");
            reveal_strlit("'change'");
            reveal_strlit("'remove'");
        }
        if is_word(buf, "'new'") {
            Some(Event::New)
        } else if is_word(buf, "'change'") {
            Some(Event::Change)
        } else if is_word(buf, "'remove'") {
            Some(Event::Remove)
        } else {
            None
        }
    }
}

impl EventDst {
    /// Decodes the type token and the index token of an event line.
    pub fn deserialize(buf: [&[u8]; 2]) -> (r: Option<Self>)
        ensures
            r == dst_of(buf@[0]@, buf@[1]@),
    {
        let kind: &[u8] = buf[0];
        let id_tok: &[u8] = buf[1];
        if id_tok.len() == 0 || id_tok[0] != 35 {
            return None;
        }
        let digits = vstd::slice::slice_subrange(id_tok, 1, id_tok.len());
        assert(digits@ =~= id_tok@.drop_first());
        let id = match parse_u32(digits) {
            Some(id) => id,
            None => return None,
        };
        proof {
            reveal_strlit("sink");
            reveal_strlit("source");
            reveal_strlit("card");
            reveal_strlit("source-output");
            reveal_strlit("client");
            reveal_strlit("sink-input");
        }
        if is_word(kind, "sink") {
            Some(EventDst::Sink(id))
        } else if is_word(kind, "source") {
            Some(EventDst::Source(id))
        } else if is_word(kind, "card") {
            Some(EventDst::Card(id))
        } else if is_word(kind, "source-output") {
            Some(EventDst::SourceOutput(id))
        } else if is_word(kind, "client") {
            Some(EventDst::Client(id))
        } else if is_word(kind, "sink-input") {
            Some(EventDst::SinkInput(id))
        } else {
            None
        }
    }
}

/// Decodes one line of the `subscribe` command's output; a line feed at its
/// end is not part of it.
pub fn read_event(line: &[u8]) -> (r: Result<(Event, EventDst), Error>)
    ensures
        r == event_line(line@),
{
    let body = if line.len() > 0 && line[line.len() - 1] == 10 {
        vstd::slice::slice_subrange(line, 0, line.len() - 1)
    } else {
        line
    };
    assert(body@ =~= without_newline(line@));
    let w = split_at_byte(body, 32);
    assert(views(w@).len() == w@.len());
    proof {
        reveal_strlit("Event");
        reveal_strlit("on");
    }
    if w.len() < 5 {
        return Err(Error::Malformed);
    }
    assert(views(w@)[0] == w@[0]@ && views(w@)[1] == w@[1]@ && views(w@)[2] == w@[2]@);
    assert(views(w@)[3] == w@[3]@ && views(w@)[4] == w@[4]@);
    if !is_word(w[0], "Event") || !is_word(w[2], "on") {
        return Err(Error::Malformed);
    }
    let event = Event::deserialize(w[1]);
    let dst = EventDst::deserialize([w[3], w[4]]);
    match (event, dst) {
        (Some(e), Some(d)) => Ok((e, d)),
        _ => Err(Error::DeserializeError),
    }
}

impl Default for SinkState {
    /// A sink whose state was not reported.
    fn default() -> (r: SinkState)
        ensures
            r == SinkState::Undefined,
    {
        SinkState::Undefined
    }
}

impl Default for Sink {
    /// The sink before any line of its block is read.
    fn default() -> (r: Sink)
        ensures
            r@ == blank_sink(),
    {
        Sink::blank()
    }
}

impl SinkState {
    /// Decodes the value of a sink's `State` entry.
    pub fn deserialize(buf: &[u8]) -> (r: Option<Self>)
        ensures
            r == state_of(buf@),
    {
        proof {
            reveal_strlit("IDLE");
            reveal_strlit("RUNNING");
            reveal_strlit("SUSPENDED");
        }
        if is_word(buf, "IDLE") {
            Some(SinkState::Idle)
        } else if is_word(buf, "RUNNING") {
            Some(SinkState::Running)
        } else if is_word(buf, "SUSPENDED") {
            Some(SinkState::Suspended)
        } else {
            None
        }
    }
}

/// An output device of the sound server, as the `list sinks` command
/// describes it.
#[derive(Clone, Debug, PartialEq, Eq)]
pub struct Sink {
    pub id: u32,
    pub state: SinkState,
    pub name: String,
    pub description: String,
    pub driver: String,
    pub sample_specification: String,
    pub channel_map: String,
    pub owner_module: String,
    pub mute: bool,
    pub volume: String,
    pub base_volume: String,
    pub monitor_source: String,
    pub latency: String,
    pub flags: String,
    pub properties: String,
    pub formats: String,
}

/// The value of a [`Sink`], its texts as characters.
pub struct SinkView {
    pub id: u32,
    pub state: SinkState,
    pub name: Seq<char>,
    pub description: Seq<char>,
    pub driver: Seq<char>,
    pub sample_specification: Seq<char>,
    pub channel_map: Seq<char>,
    pub owner_module: Seq<char>,
    pub mute: bool,
    pub volume: Seq<char>,
    pub base_volume: Seq<char>,
    pub monitor_source: Seq<char>,
    pub latency: Seq<char>,
    pub flags: Seq<char>,
    pub properties: Seq<char>,
    pub formats: Seq<char>,
}

impl View for Sink {
    type V = SinkView;

    open spec fn view(&self) -> SinkView {
        SinkView {
            id: self.id,
            state: self.state,
            name: self.name@,
            description: self.description@,
            driver: self.driver@,
            sample_specification: self.sample_specification@,
            channel_map: self.channel_map@,
            owner_module: self.owner_module@,
            mute: self.mute,
            volume: self.volume@,
            base_volume: self.base_volume@,
            monitor_source: self.monitor_source@,
            latency: self.latency@,
            flags: self.flags@,
            properties: self.properties@,
            formats: self.formats@,
        }
    }
}

/// The sink before any line of its block is read.
pub open spec fn blank_sink() -> SinkView {
    SinkView {
        id: 0,
        state: SinkState::Undefined,
        name: Seq::empty(),
        description: Seq::empty(),
        driver: Seq::empty(),
        sample_specification: Seq::empty(),
        channel_map: Seq::empty(),
        owner_module: Seq::empty(),
        mute: false,
        volume: Seq::empty(),
        base_volume: Seq::empty(),
        monitor_source: Seq::empty(),
        latency: Seq::empty(),
        flags: Seq::empty(),
        properties: Seq::empty(),
        formats: Seq::empty(),
    }
}

/// `true` for the keys whose value is kept as text.
pub open spec fn is_text_key(k: Seq<u8>) -> bool {
    k == ascii("Name"@) || k == ascii("Description"@) || k == ascii("Driver"@) || k == ascii(
        "Sample Specification"@,
    ) || k == ascii("Channel Map"@) || k == ascii("Owner Module"@) || k == ascii("Volume"@)
        || k == ascii("Monitor Source"@) || k == ascii("Latency"@) || k == ascii("Flags"@)
}

/// `v` with the text field that the key `k` names set to `t`.
pub open spec fn with_text(v: SinkView, k: Seq<u8>, t: Seq<char>) -> SinkView {
    if k == ascii("Name"@) {
        SinkView { name: t, ..v }
    } else if k == ascii("Description"@) {
        SinkView { description: t, ..v }
    } else if k == ascii("Driver"@) {
        SinkView { driver: t, ..v }
    } else if k == ascii("Sample Specification"@) {
        SinkView { sample_specification: t, ..v }
    } else if k == ascii("Channel Map"@) {
        SinkView { channel_map: t, ..v }
    } else if k == ascii("Owner Module"@) {
        SinkView { owner_module: t, ..v }
    } else if k == ascii("Volume"@) {
        SinkView { volume: t, ..v }
    } else if k == ascii("Monitor Source"@) {
        SinkView { monitor_source: t, ..v }
    } else if k == ascii("Latency"@) {
        SinkView { latency: t, ..v }
    } else if k == ascii("Flags"@) {
        SinkView { flags: t, ..v }
    } else {
        v
    }
}

/// `v` after the entry with key `k` and value `val`; `None` where the value
/// cannot be read. Keys the decoder does not know leave `v` as it is.
pub open spec fn with_entry(v: SinkView, k: Seq<u8>, val: Seq<u8>) -> Option<SinkView> {
    if k == ascii("State"@) {
        match state_of(val) {
            Some(st) => Some(SinkView { state: st, ..v }),
            None => None,
        }
    } else if k == ascii("Mute"@) {
        Some(SinkView { mute: val == ascii("yes"@), ..v })
    } else if is_text_key(k) {
        if valid_utf8(val) {
            Some(with_text(v, k, decode_utf8(val)))
        } else {
            None
        }
    } else {
        Some(v)
    }
}

/// The value of an entry line after its first colon, without one leading
/// space.
pub open spec fn entry_value(rest: Seq<u8>) -> Seq<u8> {
    let after = rest.subrange(first_index(rest, 58) + 1, rest.len() as int);
    if after.len() > 0 && after[0] == 32 {
        after.drop_first()
    } else {
        after
    }
}

/// `v` after one line of a sink's block: a tab-indented `Key: Value` entry,
/// or the heading `Sink #<index>`.
pub open spec fn with_line(v: SinkView, line: Seq<u8>) -> Option<SinkView> {
    if line.len() > 0 && line[0] == 9 {
        let rest = line.drop_first();
        let p = first_index(rest, 58);
        if p == rest.len() {
            Some(v)
        } else {
            with_entry(v, rest.subrange(0, p), entry_value(rest))
        }
    } else {
        let w = fields(line, 32);
        if w.len() >= 2 && w[0] == ascii("Sink"@) && w[1].len() > 0 && w[1][0] == 35 {
            match u32_of(w[1].drop_first()) {
                Some(id) => Some(SinkView { id: id, ..v }),
                None => None,
            }
        } else {
            None
        }
    }
}

/// The sink that the lines of one block describe, read in order.
pub open spec fn sink_of(lines: Seq<Seq<u8>>) -> Option<SinkView>
    decreases lines.len(),
{
    if lines.len() == 0 {
        Some(blank_sink())
    } else {
        match sink_of(lines.drop_last()) {
            Some(v) => with_line(v, lines.last()),
            None => None,
        }
    }
}

impl Sink {
    /// A sink with no index, no texts, no state and no mute flag.
    pub fn blank() -> (r: Sink)
        ensures
            r@ == blank_sink(),
    {
        Sink {
            id: 0,
            state: SinkState::Undefined,
            name: String::new(),
            description: String::new(),
            driver: String::new(),
            sample_specification: String::new(),
            channel_map: String::new(),
            owner_module: String::new(),
            mute: false,
            volume: String::new(),
            base_volume: String::new(),
            monitor_source: String::new(),
            latency: String::new(),
            flags: String::new(),
            properties: String::new(),
            formats: String::new(),
        }
    }

    /// Applies one entry; `false`, and the sink unchanged, where the value
    /// cannot be read.
    fn set_entry(&mut self, k: &[u8], val: &[u8]) -> (r: bool)
        ensures
            r == with_entry(old(self)@, k@, val@).is_some(),
            r ==> final(self)@ == with_entry(old(self)@, k@, val@).unwrap(),
            !r ==> final(self)@ == old(self)@,
    {
        proof {
            reveal_strlit("State");
            reveal_strlit("Mute");
            reveal_strlit("yes");
            reveal_strlit("Name");
            reveal_strlit("Description");
            reveal_strlit("Driver");
            reveal_strlit("Sample Specification");
            reveal_strlit("Channel Map");
            reveal_strlit("Owner Module");
            reveal_strlit("Volume");
            reveal_strlit("Monitor Source");
            reveal_strlit("Latency");
            reveal_strlit("Flags");
        }
        if is_word(k, "State") {
            match SinkState::deserialize(val) {
                Some(st) => {
                    self.state = st;
                    true
                },
                None => false,
            }
        } else if is_word(k, "Mute") {
            self.mute = is_word(val, "yes");
            true
        } else {
            let name = is_word(k, "Name");
            let description = is_word(k, "Description");
            let driver = is_word(k, "Driver");
            let sample = is_word(k, "Sample Specification");
            let channels = is_word(k, "Channel Map");
            let owner = is_word(k, "Owner Module");
            let volume = is_word(k, "Volume");
            let monitor = is_word(k, "Monitor Source");
            let latency = is_word(k, "Latency");
            let flags = is_word(k, "Flags");
            if !(name || description || driver || sample || channels || owner || volume || monitor
                || latency || flags) {
                return true;
            }
            let t = match text_of(val) {
                Some(t) => t,
                None => return false,
            };
            if name {
                self.name = t;
            } else if description {
                self.description = t;
            } else if driver {
                self.driver = t;
            } else if sample {
                self.sample_specification = t;
            } else if channels {
                self.channel_map = t;
            } else if owner {
                self.owner_module = t;
            } else if volume {
                self.volume = t;
            } else if monitor {
                self.monitor_source = t;
            } else if latency {
                self.latency = t;
            } else {
                self.flags = t;
            }
            true
        }
    }

    /// Applies one line of a block; `false`, and the sink unchanged, where
    /// the line cannot be read.
    fn set_line(&mut self, line: &[u8]) -> (r: bool)
        ensures
            r == with_line(old(self)@, line@).is_some(),
            r ==> final(self)@ == with_line(old(self)@, line@).unwrap(),
            !r ==> final(self)@ == old(self)@,
    {
        if line.len() > 0 && line[0] == 9 {
            let rest = vstd::slice::slice_subrange(line, 1, line.len());
            assert(rest@ =~= line@.drop_first());
            let p = find_byte(rest, 58);
            if p == rest.len() {
                return true;
            }
            let key = vstd::slice::slice_subrange(rest, 0, p);
            let after = vstd::slice::slice_subrange(rest, p + 1, rest.len());
            let val = if after.len() > 0 && after[0] == 32 {
                vstd::slice::slice_subrange(after, 1, after.len())
            } else {
                after
            };
            assert(val@ =~= entry_value(rest@));
            self.set_entry(key, val)
        } else {
            proof {
                reveal_strlit("Sink");
            }
            let w = split_at_byte(line, 32);
            assert(views(w@).len() == w@.len());
            if w.len() < 2 {
                return false;
            }
            assert(views(w@)[0] == w@[0]@ && views(w@)[1] == w@[1]@);
            let head: &[u8] = w[1];
            if !is_word(w[0], "Sink") || head.len() == 0 || head[0] != 35 {
                return false;
            }
            let digits = vstd::slice::slice_subrange(head, 1, head.len());
            assert(digits@ =~= head@.drop_first());
            match parse_u32(digits) {
                Some(id) => {
                    self.id = id;
                    true
                },
                None => false,
            }
        }
    }

    /// Decodes one block of the `list sinks` output, given as its lines.
    pub fn deserialize(buf: &[&[u8]]) -> (r: Option<Self>)
        ensures
            r.is_some() == sink_of(views(buf@)).is_some(),
            r.is_some() ==> r.unwrap()@ == sink_of(views(buf@)).unwrap(),
    {
        let mut sink = Sink::blank();
        let mut i: usize = 0;
        while i < buf.len()
            invariant
                0 <= i <= buf@.len(),
                sink_of(views(buf@).subrange(0, i as int)) == Some(sink@),
            decreases buf@.len() - i,
        {
            let ghost pre = views(buf@).subrange(0, i as int);
            let ghost next = views(buf@).subrange(0, i + 1);
            assert(next.drop_last() =~= pre);
            assert(next.last() == buf@[i as int]@);
            if !sink.set_line(buf[i]) {
                proof {
                    lemma_sink_of_fails(views(buf@), i + 1);
                }
                return None;
            }
            i = i + 1;
        }
        assert(views(buf@).subrange(0, i as int) =~= views(buf@));
        Some(sink)
    }
}

proof fn lemma_sink_of_fails(lines: Seq<Seq<u8>>, n: int)
    requires
        0 <= n <= lines.len(),
        sink_of(lines.subrange(0, n)).is_none(),
    ensures
        sink_of(lines).is_none(),
    decreases lines.len() - n,
{
    if n < lines.len() {
        let next = lines.subrange(0, n + 1);
        assert(next.drop_last() =~= lines.subrange(0, n));
        lemma_sink_of_fails(lines, n + 1);
    } else {
        assert(lines.subrange(0, n) =~= lines);
    }
}

/// The block `cur`, unless it is empty.
pub open spec fn nonempty_block(cur: Seq<Seq<u8>>) -> Seq<Seq<Seq<u8>>> {
    if cur.len() > 0 {
        seq![cur]
    } else {
        Seq::empty()
    }
}

/// The maximal runs of non-empty lines of `lines`, gathered onto the run
/// `cur`.
pub open spec fn blocks_onto(lines: Seq<Seq<u8>>, cur: Seq<Seq<u8>>) -> Seq<Seq<Seq<u8>>>
    decreases lines.len(),
{
    if lines.len() == 0 {
        nonempty_block(cur)
    } else if lines[0].len() == 0 {
        nonempty_block(cur) + blocks_onto(lines.drop_first(), Seq::empty())
    } else {
        blocks_onto(lines.drop_first(), cur.push(lines[0]))
    }
}

/// The blocks of the `list sinks` output: its lines, in runs that blank
/// lines separate.
pub open spec fn blocks(output: Seq<u8>) -> Seq<Seq<Seq<u8>>> {
    blocks_onto(fields(output, 10), Seq::empty())
}

/// What `list_sinks` gives for `output`: one sink per block, in order, or
/// an error where some block cannot be read.
pub open spec fn sinks_listed(output: Seq<u8>, r: Result<Vec<Sink>, Error>) -> bool {
    let bs = blocks(output);
    if forall|i: int| 0 <= i < bs.len() ==> (#[trigger] sink_of(bs[i])).is_some() {
        r.is_ok() && r.unwrap()@.len() == bs.len() && forall|i: int|
            0 <= i < bs.len() ==> (#[trigger] r.unwrap()@[i])@ == sink_of(bs[i]).unwrap()
    } else {
        r == Err::<Vec<Sink>, Error>(Error::DeserializeError)
    }
}

proof fn lemma_blocks_step(lines: Seq<Seq<u8>>, j: int, cur: Seq<Seq<u8>>)
    requires
        0 <= j < lines.len(),
    ensures
        lines[j].len() == 0 ==> blocks_onto(lines.subrange(j, lines.len() as int), cur)
            == nonempty_block(cur) + blocks_onto(
            lines.subrange(j + 1, lines.len() as int),
            Seq::empty(),
        ),
        lines[j].len() != 0 ==> blocks_onto(lines.subrange(j, lines.len() as int), cur)
            == blocks_onto(lines.subrange(j + 1, lines.len() as int), cur.push(lines[j])),
{
    assert(lines.subrange(j, lines.len() as int).drop_first() =~= lines.subrange(
        j + 1,
        lines.len() as int,
    ));
}

/// Decodes the output of the `list sinks` command: blocks separated by blank
/// lines, each a heading `Sink #<index>` and tab-indented `Key: Value` lines.
pub fn list_sinks(output: &[u8]) -> (r: Result<Vec<Sink>, Error>)
    ensures
        sinks_listed(output@, r),
{
    let lines = split_at_byte(output, 10);
    let ghost ls = views(lines@);
    let ghost all = blocks(output@);
    let mut sinks: Vec<Sink> = Vec::new();
    let mut cur: Vec<&[u8]> = Vec::new();
    let ghost mut done: Seq<Seq<Seq<u8>>> = Seq::empty();
    let mut j: usize = 0;
    let mut finished = false;
    assert(ls.subrange(0, ls.len() as int) =~= ls);
    assert(views(cur@) =~= Seq::<Seq<u8>>::empty());
    assert(done + blocks_onto(ls, Seq::empty()) =~= blocks_onto(ls, Seq::empty()));
    assert(done + blocks_onto(ls.subrange(0, ls.len() as int), views(cur@)) =~= all);
    while !finished
        invariant
            ls == views(lines@),
            ls.len() == lines@.len(),
            all == blocks(output@),
            0 <= j <= lines@.len(),
            !finished ==> done + blocks_onto(ls.subrange(j as int, ls.len() as int), views(cur@)) == all,
            finished ==> done == all,
            sinks@.len() == done.len(),
            forall|i: int| 0 <= i < done.len() ==> (#[trigger] sink_of(done[i])).is_some(),
            forall|i: int| 0 <= i < done.len() ==> (#[trigger] sinks@[i])@ == sink_of(done[i]).unwrap(),
        decreases lines@.len() - j + (if finished { 0int } else { 1int }),
    {
        let at_end = j == lines.len();
        let blank = at_end || lines[j].len() == 0;
        if !at_end {
            proof {
                lemma_blocks_step(ls, j as int, views(cur@));
            }
            assert(ls[j as int] == lines@[j as int]@);
        } else {
            assert(ls.subrange(j as int, ls.len() as int) =~= Seq::<Seq<u8>>::empty());
        }
        if blank {
            if cur.len() > 0 {
                let ghost b = views(cur@);
                assert(nonempty_block(b) == seq![b]);
                match Sink::deserialize(cur.as_slice()) {
                    Some(sink) => {
                        sinks.push(sink);
                        proof {
                            let old_done = done;
                            done = done.push(b);
                            assert(forall|i: int| 0 <= i < old_done.len() ==> done[i] == old_done[i]);
                            assert(done[old_done.len() as int] == b);
                        }
                    },
                    None => {
                        proof {
                            let rest = if at_end {
                                Seq::empty()
                            } else {
                                blocks_onto(ls.subrange(j + 1, ls.len() as int), Seq::empty())
                            };
                            assert(all == done + (seq![b] + rest));
                            assert(all[done.len() as int] == b);
                        }
                        return Err(Error::DeserializeError);
                    },
                }
            } else {
                assert(nonempty_block(views(cur@)) =~= Seq::<Seq<Seq<u8>>>::empty());
                assert(done + Seq::<Seq<Seq<u8>>>::empty() =~= done);
            }
            cur.clear();
            proof {
                if !at_end {
                    assert(views(cur@) =~= Seq::<Seq<u8>>::empty());
                }
            }
        } else {
            let ghost before = views(cur@);
            cur.push(lines[j]);
            assert(views(cur@) =~= before.push(ls[j as int]));
        }
        proof {
            if !at_end && blank {
                assert(done + blocks_onto(ls.subrange(j + 1, ls.len() as int), views(cur@)) =~= all);
            }
            if at_end {
                assert(done =~= all);
            }
        }
        if at_end {
            finished = true;
        } else {
            j = j + 1;
        }
    }
    Ok(sinks)
}

/// `true` for the events after which a sink's mute flag may differ.
pub fn concerns_sink(ev: (Event, EventDst)) -> (r: bool)
    ensures
        r == (ev.0 == Event::Change && ev.1 is Sink),
{
    match ev {
        (Event::Change, EventDst::Sink(_)) => true,
        _ => false,
    }
}

/// `true` when the sink `s` bears the name `name`.
pub open spec fn has_name(s: Sink, name: Seq<char>) -> bool {
    encode_utf8(s.name@) == encode_utf8(name)
}

/// `true` when the first sink named `name` has a mute flag other than
/// `shown`, the flag that a key currently displays; `false` when no sink has
/// that name.
pub fn mute_differs(sinks: &[Sink], name: &str, shown: bool) -> (r: bool)
    ensures
        r == exists|i: int|
            0 <= i < sinks@.len() && #[trigger] has_name(sinks@[i], name@) && (forall|j: int|
                0 <= j < i ==> !has_name(sinks@[j], name@)) && sinks@[i].mute != shown,
{
    let wanted = name.as_bytes();
    let mut i: usize = 0;
    while i < sinks.len()
        invariant
            0 <= i <= sinks@.len(),
            wanted@ == encode_utf8(name@),
            forall|j: int| 0 <= j < i ==> !has_name(sinks@[j], name@),
        decreases sinks@.len() - i,
    {
        let own = sinks[i].name.as_str().as_bytes();
        if same_bytes(own, wanted) {
            let differs = sinks[i].mute != shown;
            proof {
                assert(has_name(sinks@[i as int], name@));
                if !differs {
                    assert forall|k: int|
                        0 <= k < sinks@.len() && #[trigger] has_name(sinks@[k], name@) && (forall|j: int|
                            0 <= j < k ==> !has_name(sinks@[j], name@)) implies sinks@[k].mute == shown by {
                        if k > i {
                            assert(!has_name(sinks@[i as int], name@));
                        }
                    }
                }
            }
            return differs;
        }
        i = i + 1;
    }
    false
}

} // verus!
