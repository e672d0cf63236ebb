//! The streaming reader: a state machine that frames messages out of bytes
//! as they arrive.
//!
//! The reader does no input of its own. It says what it needs next, a read
//! or nothing, and is told what a read brought. Whoever owns the byte source
//! runs that loop; the functions at the end of this file run it over chunks
//! that are already in memory.
use crate::packet::copy_range;
use crate::packet::netlink::{
    error_of, first_frame, nl_kind, nl_length, NetlinkPacket, NLMSG_DONE, NLMSG_ERROR,
    NLMSG_NOOP, NLMSG_OVERRUN,
};
use crate::util::align_up;
use crate::wire::{get_u16, get_u32};
use vstd::prelude::*;

verus! {

/// Where a reader session stands.
#[derive(Clone, Copy, Debug, PartialEq, Eq, Structural)]
pub enum NetlinkReaderState {
    /// The end-of-dump message was seen, or the source ran dry.
    Done,
    /// The bytes at hand do not make a whole message.
    NeedMore,
    /// An error message was seen, or the source failed.
    Error,
    /// Bytes are at hand that were not yet looked at.
    Parsing,
}

/// What a reader is, as far as its behaviour goes: the bytes gathered so
/// far, the offset of the next message among them, and the state.
///
/// The offset may lie up to three bytes behind the end: the padding of the
/// message before it, which has yet to arrive.
pub struct ReaderModel {
    pub buf: Seq<u8>,
    pub cursor: int,
    pub state: NetlinkReaderState,
}

/// What the reader asks of its driver, or hands to it.
pub enum ActionModel {
    /// Read from the source and report what came.
    Read,
    /// Here is the next message.
    Message(Seq<u8>),
    /// The session yields nothing, now or later.
    End,
    /// The kernel reported an overrun; the session is lost.
    Overrun,
}

/// The bytes of `m` that lie at and behind the cursor.
pub open spec fn unread(m: ReaderModel) -> Seq<u8> {
    if 0 <= m.cursor < m.buf.len() {
        m.buf.subrange(m.cursor, m.buf.len() as int)
    } else {
        Seq::empty()
    }
}

/// True if `rest` is the beginning of a message whose end has yet to come:
/// the header is cut off, or the header declares more than is there.
pub open spec fn is_partial(rest: Seq<u8>) -> bool {
    rest.len() < 16 || (nl_length(rest) >= 16 && nl_length(rest) > rest.len())
}

/// True if `rest` starts with a header whose length field is under the
/// header's own size: a framing fault.
pub open spec fn is_malformed(rest: Seq<u8>) -> bool {
    rest.len() >= 16 && nl_length(rest) < 16
}

/// What holds of every reader that was made by `new` and driven by its own
/// methods: the cursor is not negative and at most three bytes behind the
/// end, and a reader that waits for more has nothing whole to look at.
pub open spec fn model_wf(m: ReaderModel) -> bool {
    &&& 0 <= m.cursor <= m.buf.len() + 3
    &&& m.state == NetlinkReaderState::NeedMore ==> is_partial(unread(m))
}

/// The reader's decision: what it does when asked for the next message.
///
/// A reader that is done or failed ends. One that waits for more asks for a
/// read. One with unread bytes looks at them: a partial message makes it
/// wait for more; a malformed length ends the call and leaves the reader
/// where it is; a whole message moves the cursor behind the message and its
/// padding, and is skipped if its kind is NOOP, reported as an overrun if its
/// kind is OVERRUN, and handed out otherwise, the state becoming Error on
/// kind ERROR, Done on kind DONE and Parsing on any other.
pub open spec fn poll_model(m: ReaderModel) -> (ReaderModel, ActionModel)
    decreases m.buf.len() + 3 - m.cursor,
{
    match m.state {
        NetlinkReaderState::Done => (m, ActionModel::End),
        NetlinkReaderState::Error => (m, ActionModel::End),
        NetlinkReaderState::NeedMore => (m, ActionModel::Read),
        NetlinkReaderState::Parsing => {
            let rest = unread(m);
            if is_partial(rest) {
                (
                    ReaderModel { buf: m.buf, cursor: m.cursor, state: NetlinkReaderState::NeedMore },
                    ActionModel::Read,
                )
            } else if is_malformed(rest) {
                (m, ActionModel::End)
            } else {
                let next = m.cursor + align_up(nl_length(rest) as int);
                let kind = nl_kind(rest);
                if kind == NLMSG_NOOP {
                    poll_model(
                        ReaderModel { buf: m.buf, cursor: next, state: NetlinkReaderState::Parsing },
                    )
                } else if kind == NLMSG_ERROR {
                    (
                        ReaderModel { buf: m.buf, cursor: next, state: NetlinkReaderState::Error },
                        ActionModel::Message(first_frame(rest)),
                    )
                } else if kind == NLMSG_DONE {
                    (
                        ReaderModel { buf: m.buf, cursor: next, state: NetlinkReaderState::Done },
                        ActionModel::Message(first_frame(rest)),
                    )
                } else if kind == NLMSG_OVERRUN {
                    (
                        ReaderModel { buf: m.buf, cursor: next, state: NetlinkReaderState::Error },
                        ActionModel::Overrun,
                    )
                } else {
                    (
                        ReaderModel { buf: m.buf, cursor: next, state: NetlinkReaderState::Parsing },
                        ActionModel::Message(first_frame(rest)),
                    )
                }
            }
        },
    }
}

/// What a read that brought `chunk` does to a reader that waits for more: no
/// bytes mean the end of the stream, and the reader is done; any bytes are
/// added to those at hand, and the reader goes to look at them. A reader
/// that did not ask is left alone.
pub open spec fn feed_model(m: ReaderModel, chunk: Seq<u8>) -> ReaderModel {
    if m.state != NetlinkReaderState::NeedMore {
        m
    } else if chunk.len() == 0 {
        ReaderModel { buf: m.buf, cursor: m.cursor, state: NetlinkReaderState::Done }
    } else {
        ReaderModel { buf: m.buf + chunk, cursor: m.cursor, state: NetlinkReaderState::Parsing }
    }
}

/// What a failed read does to a reader that waits for more: the session is
/// over. A reader that did not ask is left alone.
pub open spec fn fail_model(m: ReaderModel) -> ReaderModel {
    if m.state != NetlinkReaderState::NeedMore {
        m
    } else {
        ReaderModel { buf: m.buf, cursor: m.cursor, state: NetlinkReaderState::Error }
    }
}

/// What a read came to.
#[derive(Debug)]
pub enum ReadEvent<'a> {
    /// The read brought these bytes; none of them means the end of the
    /// stream.
    Data(&'a [u8]),
    /// The source has nothing at the moment and will have more later.
    WouldBlock,
    /// The read failed.
    Failed,
}

/// What the outcome of a read does to a reader: bytes are fed to it, a
/// failure ends the session, and a source that has nothing yet changes
/// nothing, so that the call can be made again later.
pub open spec fn event_model(m: ReaderModel, event: ReadEvent) -> ReaderModel {
    match event {
        ReadEvent::Data(chunk) => feed_model(m, chunk@),
        ReadEvent::WouldBlock => m,
        ReadEvent::Failed => fail_model(m),
    }
}

/// What the reader asks of its driver, or hands to it.
#[derive(Debug)]
pub enum ReaderAction {
    /// Read from the source, then call `feed` with what came or `fail`.
    Read,
    /// The next message, in a buffer of its own.
    Message(NetlinkPacket<'static>),
    /// The session yields nothing, now or later.
    End,
    /// The kernel reported an overrun; the session is lost.
    Overrun,
}

impl ReaderAction {
    /// The action with a message's bytes in place of the message.
    pub open spec fn view(&self) -> ActionModel {
        match self {
            ReaderAction::Read => ActionModel::Read,
            ReaderAction::Message(pkt) => ActionModel::Message(pkt@),
            ReaderAction::End => ActionModel::End,
            ReaderAction::Overrun => ActionModel::Overrun,
        }
    }
}

/// Netlink packet parser
#[derive(Debug)]
pub struct NetlinkReader {
    buf: Vec<u8>,
    read_at: usize,
    /// Padding bytes of the last message that have yet to arrive.
    skip: usize,
    state: NetlinkReaderState,
}

impl NetlinkReader {
    /// The reader as far as its behaviour goes.
    pub closed spec fn view(&self) -> ReaderModel {
        ReaderModel { buf: self.buf@, cursor: self.read_at + self.skip, state: self.state }
    }

    /// The reader was made by `new` and driven by its own methods.
    pub closed spec fn wf(&self) -> bool {
        &&& self.read_at <= self.buf@.len()
        &&& self.skip <= 3
        &&& self.skip > 0 ==> self.read_at == self.buf@.len()
        &&& model_wf(self@)
    }

    /// A well-formed reader has a well-formed model.
    pub proof fn lemma_wf_model(&self)
        requires
            self.wf(),
        ensures
            model_wf(self@),
    {
    }

    /// A reader at the start of its session: nothing gathered, waiting for
    /// the first read.
    pub fn new() -> (reader: Self)
        ensures
            reader.wf(),
            reader@ == (ReaderModel {
                buf: Seq::empty(),
                cursor: 0,
                state: NetlinkReaderState::NeedMore,
            }),
    {
        NetlinkReader { buf: Vec::new(), read_at: 0, skip: 0, state: NetlinkReaderState::NeedMore }
    }

    /// The state of the session.
    pub fn state(&self) -> (state: NetlinkReaderState)
        ensures
            state == self@.state,
    {
        self.state
    }

    /// Tells the reader what a read brought; an empty chunk stands for the
    /// end of the stream.
    pub fn feed(&mut self, chunk: &[u8])
        requires
            old(self).wf(),
        ensures
            final(self).wf(),
            final(self)@ == feed_model(old(self)@, chunk@),
    {
        if self.state != NetlinkReaderState::NeedMore {
            return ;
        }
        if chunk.len() == 0 {
            self.state = NetlinkReaderState::Done;
            return ;
        }
        self.buf.extend_from_slice(chunk);
        assert(self.buf@ =~= old(self).buf@ + chunk@);
        let taken = if self.skip < chunk.len() {
            self.skip
        } else {
            chunk.len()
        };
        let _ = self.buf.len();
        self.read_at = self.read_at + taken;
        self.skip = self.skip - taken;
        self.state = NetlinkReaderState::Parsing;
    }

    /// Tells the reader that the read failed.
    pub fn fail(&mut self)
        requires
            old(self).wf(),
        ensures
            final(self).wf(),
            final(self)@ == fail_model(old(self)@),
    {
        if self.state == NetlinkReaderState::NeedMore {
            self.state = NetlinkReaderState::Error;
        }
    }

    /// Tells the reader what the read that it asked for came to.
    pub fn on_read(&mut self, event: ReadEvent)
        requires
            old(self).wf(),
        ensures
            final(self).wf(),
            final(self)@ == event_model(old(self)@, event),
    {
        match event {
            ReadEvent::Data(chunk) => self.feed(chunk),
            ReadEvent::WouldBlock => {},
            ReadEvent::Failed => self.fail(),
        }
    }

    /// Decides what comes next: a message out of the bytes at hand, a read,
    /// or the end.
    pub fn poll(&mut self) -> (action: ReaderAction)
        requires
            old(self).wf(),
        ensures
            final(self).wf(),
            (final(self)@, action@) == poll_model(old(self)@),
    {
        match self.state {
            NetlinkReaderState::Done => {
                return ReaderAction::End;
            },
            NetlinkReaderState::Error => {
                return ReaderAction::End;
            },
            NetlinkReaderState::NeedMore => {
                return ReaderAction::Read;
            },
            NetlinkReaderState::Parsing => {},
        }
        loop
            invariant
                self.wf(),
                self.state == NetlinkReaderState::Parsing,
                poll_model(self@) == poll_model(old(self)@),
            decreases self.buf@.len() + 3 - self.read_at - self.skip,
        {
            let total = self.buf.len();
            let avail = if self.skip > 0 {
                0
            } else {
                total - self.read_at
            };
            proof {
                if self.skip == 0 {
                    assert(unread(self@) =~= self.buf@.subrange(self.read_at as int, total as int));
                }
                assert(unread(self@).len() == avail);
            }
            if avail < 16 {
                self.state = NetlinkReaderState::NeedMore;
                return ReaderAction::Read;
            }
            let ghost rest = unread(self@);
            assert(rest.subrange(0, 4) =~= self.buf@.subrange(
                self.read_at as int,
                self.read_at + 4,
            ));
            assert(rest.subrange(4, 6) =~= self.buf@.subrange(
                self.read_at + 4,
                self.read_at + 6,
            ));
            let declared = get_u32(self.buf.as_slice(), self.read_at);
            if declared < 16 {
                return ReaderAction::End;
            }
            if declared as usize > avail {
                self.state = NetlinkReaderState::NeedMore;
                return ReaderAction::Read;
            }
            let len = declared as usize;
            let kind = get_u16(self.buf.as_slice(), self.read_at + 4);
            let rem: usize = len % 4;
            let pad: usize = if rem == 0 {
                0
            } else {
                4 - rem
            };
            let start = self.read_at;
            if avail - len < pad {
                self.read_at = total;
                self.skip = pad - (avail - len);
            } else {
                self.read_at = start + len + pad;
            }
            assert(self.read_at + self.skip == start + align_up(len as int));
            if kind == NLMSG_NOOP {
                proof {
                    if self.skip == 0 {
                        assert(unread(self@) =~= self.buf@.subrange(
                            self.read_at as int,
                            total as int,
                        ));
                    }
                }
                continue ;
            }
            if kind == NLMSG_OVERRUN {
                self.state = NetlinkReaderState::Error;
                return ReaderAction::Overrun;
            }
            let frame = copy_range(self.buf.as_slice(), start, start + len);
            assert(frame@ =~= first_frame(rest));
            if kind == NLMSG_ERROR {
                self.state = NetlinkReaderState::Error;
            } else if kind == NLMSG_DONE {
                self.state = NetlinkReaderState::Done;
            }
            return ReaderAction::Message(NetlinkPacket::owned(frame).unwrap());
        }
    }
}

/// What a session yields from first to last: the messages in order, and
/// whether it broke off on an overrun.
pub struct Transcript {
    pub messages: Seq<Seq<u8>>,
    pub overrun: bool,
}

/// The transcript of a session that yields nothing.
pub open spec fn silence() -> Transcript {
    Transcript { messages: Seq::empty(), overrun: false }
}

/// `t` with `message` before its messages.
pub open spec fn preceded_by(message: Seq<u8>, t: Transcript) -> Transcript {
    Transcript { messages: seq![message] + t.messages, overrun: t.overrun }
}

/// The bytes that a source of `chunks` hands out before it runs dry: a read
/// that brings nothing is the end of the stream, so the chunks count up to
/// the first empty one.
pub open spec fn stream_of(chunks: Seq<Seq<u8>>) -> Seq<u8>
    decreases chunks.len(),
{
    if chunks.len() == 0 || chunks[0].len() == 0 {
        Seq::empty()
    } else {
        chunks[0] + stream_of(chunks.drop_first())
    }
}

/// What a reader yields from a whole stream, from offset `cursor` on: the
/// messages in order, NOOP messages left out, up to and including the first
/// of kind ERROR or DONE; nothing from a partial or malformed message on; and
/// an overrun where a message of kind OVERRUN stands.
pub open spec fn transcript(stream: Seq<u8>, cursor: int) -> Transcript
    decreases stream.len() + 3 - cursor,
{
    let rest = unread(
        ReaderModel { buf: stream, cursor: cursor, state: NetlinkReaderState::Parsing },
    );
    if is_partial(rest) || is_malformed(rest) {
        silence()
    } else {
        let next = cursor + align_up(nl_length(rest) as int);
        let kind = nl_kind(rest);
        if kind == NLMSG_NOOP {
            transcript(stream, next)
        } else if kind == NLMSG_ERROR || kind == NLMSG_DONE {
            preceded_by(first_frame(rest), silence())
        } else if kind == NLMSG_OVERRUN {
            Transcript { messages: Seq::empty(), overrun: true }
        } else {
            preceded_by(first_frame(rest), transcript(stream, next))
        }
    }
}

/// What a reader in state `m` yields from here on, when its source still
/// holds `pending`: nothing if the session is over, else what the stream
/// made of the bytes at hand and the bytes to come yields from the cursor on.
/// The way the stream is cut into chunks plays no part.
pub open spec fn session_transcript(m: ReaderModel, pending: Seq<Seq<u8>>) -> Transcript {
    match m.state {
        NetlinkReaderState::Done => silence(),
        NetlinkReaderState::Error => silence(),
        _ => transcript(m.buf + stream_of(pending), m.cursor),
    }
}

/// One call for the next message, run against a source that holds
/// `pending`: the reader decides; while it asks for a read, the source's next
/// chunk is fed to it, and no chunk when the source is dry. The result is
/// the reader afterwards, what the source still holds, and what the call
/// yields, which is never a request to read.
pub open spec fn read_model(m: ReaderModel, pending: Seq<Seq<u8>>) -> (
    ReaderModel,
    Seq<Seq<u8>>,
    ActionModel,
)
    decreases pending.len(),
{
    let (decided, action) = poll_model(m);
    if action is Read {
        if pending.len() == 0 {
            (feed_model(decided, Seq::empty()), pending, ActionModel::End)
        } else {
            read_model(feed_model(decided, pending[0]), pending.drop_first())
        }
    } else {
        (decided, pending, action)
    }
}

/// Bytes at hand read the same when more bytes follow them: the header
/// fields of what is unread, and a message that is wholly there.
proof fn lemma_unread_prefix(buf: Seq<u8>, tail: Seq<u8>, cursor: int)
    requires
        0 <= cursor,
    ensures
        ({
            let here = unread(
                ReaderModel { buf: buf, cursor: cursor, state: NetlinkReaderState::Parsing },
            );
            let there = unread(
                ReaderModel { buf: buf + tail, cursor: cursor, state: NetlinkReaderState::Parsing },
            );
            &&& here.len() <= there.len()
            &&& tail.len() == 0 ==> here == there
            &&& here.len() >= 16 ==> nl_length(there) == nl_length(here) && nl_kind(there)
                == nl_kind(here)
            &&& here.len() >= 16 && 16 <= nl_length(here) <= here.len() ==> first_frame(there)
                == first_frame(here)
        }),
{
    let here = unread(ReaderModel { buf: buf, cursor: cursor, state: NetlinkReaderState::Parsing });
    let there = unread(
        ReaderModel { buf: buf + tail, cursor: cursor, state: NetlinkReaderState::Parsing },
    );
    if tail.len() == 0 {
        assert(buf + tail =~= buf);
    }
    if here.len() >= 16 {
        assert(there.subrange(0, 4) =~= here.subrange(0, 4));
        assert(there.subrange(4, 6) =~= here.subrange(4, 6));
        if 16 <= nl_length(here) <= here.len() {
            assert(first_frame(there) =~= first_frame(here));
        }
    }
}

/// What one decision of the reader means for the session's transcript.
proof fn lemma_poll_step(m: ReaderModel, tail: Seq<u8>)
    requires
        model_wf(m),
    ensures
        ({
            let (after, action) = poll_model(m);
            let stream = m.buf + tail;
            let before = match m.state {
                NetlinkReaderState::Done => silence(),
                NetlinkReaderState::Error => silence(),
                _ => transcript(stream, m.cursor),
            };
            let later = match after.state {
                NetlinkReaderState::Done => silence(),
                NetlinkReaderState::Error => silence(),
                _ => transcript(stream, after.cursor),
            };
            &&& model_wf(after)
            &&& after.buf == m.buf
            &&& after.cursor >= m.cursor
            &&& match action {
                ActionModel::Read => after.state == NetlinkReaderState::NeedMore && before
                    == later,
                ActionModel::Message(frame) => before == preceded_by(frame, later) && after.cursor
                    > m.cursor,
                ActionModel::End => before == silence() && later == silence(),
                ActionModel::Overrun => before == (Transcript {
                    messages: Seq::empty(),
                    overrun: true,
                }) && after.state == NetlinkReaderState::Error,
            }
        }),
    decreases m.buf.len() + 3 - m.cursor,
{
    let stream = m.buf + tail;
    lemma_unread_prefix(m.buf, tail, m.cursor);
    let here = unread(m);
    let there = unread(
        ReaderModel { buf: stream, cursor: m.cursor, state: NetlinkReaderState::Parsing },
    );
    assert(here == unread(
        ReaderModel { buf: m.buf, cursor: m.cursor, state: NetlinkReaderState::Parsing },
    ));
    match m.state {
        NetlinkReaderState::Done => {},
        NetlinkReaderState::Error => {},
        NetlinkReaderState::NeedMore => {},
        NetlinkReaderState::Parsing => {
            if is_partial(here) {
            } else if is_malformed(here) {
                assert(is_malformed(there));
            } else {
                let next = m.cursor + align_up(nl_length(here) as int);
                assert(!is_partial(there) && !is_malformed(there));
                if nl_kind(here) == NLMSG_NOOP {
                    let skipped = ReaderModel {
                        buf: m.buf,
                        cursor: next,
                        state: NetlinkReaderState::Parsing,
                    };
                    lemma_poll_step(skipped, tail);
                }
            }
        },
    }
}

/// Feeding a reader that waits for more keeps it well-formed, and the stream
/// made of its bytes and the bytes to come stays the same.
proof fn lemma_feed_step(m: ReaderModel, pending: Seq<Seq<u8>>)
    requires
        model_wf(m),
        m.state == NetlinkReaderState::NeedMore,
        pending.len() > 0,
    ensures
        model_wf(feed_model(m, pending[0])),
        session_transcript(feed_model(m, pending[0]), pending.drop_first()) == session_transcript(
            m,
            pending,
        ),
{
    let chunk = pending[0];
    let fed = feed_model(m, chunk);
    if chunk.len() == 0 {
        lemma_unread_prefix(m.buf, Seq::empty(), m.cursor);
        assert(m.buf + stream_of(pending) =~= m.buf);
        assert(unread(
            ReaderModel { buf: m.buf, cursor: m.cursor, state: NetlinkReaderState::Parsing },
        ) == unread(m));
    } else {
        assert(fed.buf + stream_of(pending.drop_first()) =~= m.buf + stream_of(pending));
    }
}

/// One call for the next message takes the first message off the session's
/// transcript, or ends where the transcript ends; and it leaves less to do:
/// a chunk less in the source, or the cursor further on.
pub proof fn lemma_read_step(m: ReaderModel, pending: Seq<Seq<u8>>)
    requires
        model_wf(m),
    ensures
        ({
            let (after, left, action) = read_model(m, pending);
            let before = session_transcript(m, pending);
            let later = session_transcript(after, left);
            &&& model_wf(after)
            &&& left.len() <= pending.len()
            &&& match action {
                ActionModel::Read => false,
                ActionModel::Message(frame) => before == preceded_by(frame, later) && (left.len()
                    < pending.len() || (after.buf == m.buf && after.cursor > m.cursor)),
                ActionModel::End => before == silence() && later == silence(),
                ActionModel::Overrun => before == (Transcript {
                    messages: Seq::empty(),
                    overrun: true,
                }) && later == silence(),
            }
        }),
    decreases pending.len(),
{
    let (decided, action) = poll_model(m);
    lemma_poll_step(m, stream_of(pending));
    if action is Read {
        if pending.len() == 0 {
            lemma_unread_prefix(decided.buf, Seq::empty(), decided.cursor);
            assert(decided.buf + stream_of(pending) =~= decided.buf);
            assert(unread(
                ReaderModel {
                    buf: decided.buf,
                    cursor: decided.cursor,
                    state: NetlinkReaderState::Parsing,
                },
            ) == unread(decided));
        } else {
            lemma_feed_step(decided, pending);
            lemma_read_step(feed_model(decided, pending[0]), pending.drop_first());
        }
    }
}

/// The same bytes yield the same messages, however the source cuts them into
/// chunks: a fresh reader over chunks of which none is empty yields what it
/// yields over the one chunk that holds all their bytes.
pub proof fn lemma_chunking_is_immaterial(chunks: Seq<Seq<u8>>)
    requires
        forall|i: int| 0 <= i < chunks.len() ==> (#[trigger] chunks[i]).len() > 0,
    ensures
        session_transcript(
            ReaderModel { buf: Seq::empty(), cursor: 0, state: NetlinkReaderState::NeedMore },
            chunks,
        ) == session_transcript(
            ReaderModel { buf: Seq::empty(), cursor: 0, state: NetlinkReaderState::NeedMore },
            seq![chunks.flatten()],
        ),
{
    let whole = seq![chunks.flatten()];
    lemma_stream_of_filled_chunks(chunks);
    assert(whole.drop_first() =~= Seq::<Seq<u8>>::empty());
    assert(stream_of(whole.drop_first()) =~= Seq::<u8>::empty());
    if chunks.flatten().len() > 0 {
        assert(stream_of(whole) =~= chunks.flatten());
    } else {
        assert(stream_of(whole) =~= chunks.flatten());
    }
}

/// A source cut into chunks of which none is empty hands out all its bytes.
pub proof fn lemma_stream_of_filled_chunks(chunks: Seq<Seq<u8>>)
    requires
        forall|i: int| 0 <= i < chunks.len() ==> (#[trigger] chunks[i]).len() > 0,
    ensures
        stream_of(chunks) == chunks.flatten(),
    decreases chunks.len(),
{
    if chunks.len() == 0 {
        assert(chunks.flatten() =~= Seq::<u8>::empty());
    } else {
        let rest = chunks.drop_first();
        assert forall|i: int| 0 <= i < rest.len() implies (#[trigger] rest[i]).len() > 0 by {
            assert(rest[i] == chunks[i + 1]);
        }
        lemma_stream_of_filled_chunks(rest);
        assert(chunks.flatten() =~= chunks[0] + rest.flatten());
    }
}


/// Why a session broke off.
#[derive(Clone, Copy, Debug, PartialEq, Eq, Structural)]
pub enum ReaderError {
    /// The kernel reported that it had to drop messages.
    Overrun,
    /// The kernel answered the request with this error number.
    Errno(i32),
}

/// The chunks as byte sequences.
pub open spec fn chunk_views(chunks: Seq<Vec<u8>>) -> Seq<Seq<u8>> {
    Seq::new(chunks.len(), |i: int| chunks[i]@)
}

/// What a call for the next message came to, as the reader's model puts it.
pub open spec fn outcome(result: Result<Option<NetlinkPacket<'static>>, ReaderError>) -> ActionModel {
    match result {
        Ok(Some(pkt)) => ActionModel::Message(pkt@),
        Ok(None) => ActionModel::End,
        Err(_) => ActionModel::Overrun,
    }
}

/// The error number of the first among `messages` that reports one.
pub open spec fn first_error(messages: Seq<Seq<u8>>) -> Option<i32>
    decreases messages.len(),
{
    if messages.len() == 0 {
        None
    } else if error_of(messages[0]).is_some() {
        error_of(messages[0])
    } else {
        first_error(messages.drop_first())
    }
}

/// What a session comes to for one who only asks whether the request went
/// through: the first error number that a message reports; failing that, the
/// overrun if the session broke off on one; else success.
pub open spec fn verdict(t: Transcript) -> Result<(), ReaderError> {
    match first_error(t.messages) {
        Some(errno) => Err(ReaderError::Errno(errno)),
        None => if t.overrun {
            Err(ReaderError::Overrun)
        } else {
            Ok(())
        },
    }
}

/// A reader together with a byte source in memory: a list of chunks, of
/// which each read hands out the next. The messages come out one by one.
#[derive(Debug)]
pub struct NetlinkBufIterator {
    reader: NetlinkReader,
    chunks: Vec<Vec<u8>>,
    next_chunk: usize,
}

impl NetlinkBufIterator {
    /// The reader's model.
    pub closed spec fn reader(&self) -> ReaderModel {
        self.reader@
    }

    /// The chunks that the source still holds.
    pub closed spec fn pending(&self) -> Seq<Seq<u8>> {
        chunk_views(self.chunks@).skip(self.next_chunk as int)
    }

    /// The session was set up by `new` and driven by its own methods.
    pub closed spec fn wf(&self) -> bool {
        self.reader.wf() && self.next_chunk <= self.chunks@.len()
    }

    /// A well-formed session has a well-formed reader.
    pub proof fn lemma_wf_model(&self)
        requires
            self.wf(),
        ensures
            model_wf(self.reader()),
    {
    }

    /// A session of `reader` over a source that holds `chunks`.
    pub fn new(reader: NetlinkReader, chunks: Vec<Vec<u8>>) -> (iter: Self)
        requires
            reader.wf(),
        ensures
            iter.wf(),
            iter.reader() == reader@,
            iter.pending() == chunk_views(chunks@),
    {
        assert(chunk_views(chunks@).skip(0) =~= chunk_views(chunks@));
        NetlinkBufIterator { reader: reader, chunks: chunks, next_chunk: 0 }
    }

    /// Reads the next message: asks the reader, and feeds it from the source
    /// for as long as it asks for more.
    pub fn read_netlink(&mut self) -> (result: Result<Option<NetlinkPacket<'static>>, ReaderError>)
        requires
            old(self).wf(),
        ensures
            final(self).wf(),
            (final(self).reader(), final(self).pending(), outcome(result)) == read_model(
                old(self).reader(),
                old(self).pending(),
            ),
            result is Err ==> result == Err::<Option<NetlinkPacket<'static>>, ReaderError>(
                ReaderError::Overrun,
            ),
    {
        loop
            invariant
                self.wf(),
                read_model(self.reader(), self.pending()) == read_model(
                    old(self).reader(),
                    old(self).pending(),
                ),
            decreases self.chunks@.len() - self.next_chunk,
        {
            let ghost pending = self.pending();
            match self.reader.poll() {
                ReaderAction::Read => {
                    if self.next_chunk < self.chunks.len() {
                        self.reader.feed(self.chunks[self.next_chunk].as_slice());
                        self.next_chunk = self.next_chunk + 1;
                        assert(self.pending() =~= pending.drop_first());
                    } else {
                        let nothing: Vec<u8> = Vec::new();
                        self.reader.feed(nothing.as_slice());
                        assert(nothing@ =~= Seq::<u8>::empty());
                        return Ok(None);
                    }
                },
                ReaderAction::Message(pkt) => {
                    return Ok(Some(pkt));
                },
                ReaderAction::End => {
                    return Ok(None);
                },
                ReaderAction::Overrun => {
                    return Err(ReaderError::Overrun);
                },
            }
        }
    }

    /// The next message of the session; nothing once the session is over,
    /// however it ended.
    pub fn next(&mut self) -> (item: Option<NetlinkPacket<'static>>)
        requires
            old(self).wf(),
        ensures
            final(self).wf(),
            ({
                let (reader, pending, action) = read_model(old(self).reader(), old(self).pending());
                &&& final(self).reader() == reader
                &&& final(self).pending() == pending
                &&& match action {
                    ActionModel::Message(frame) => item.is_some() && item.unwrap()@ == frame,
                    _ => item.is_none(),
                }
            }),
    {
        match self.read_netlink() {
            Ok(Some(slot)) => Some(slot),
            _ => None,
        }
    }

    /// All messages that the session still yields, in order.
    pub fn collect(self) -> (list: Vec<NetlinkPacket<'static>>)
        requires
            self.wf(),
        ensures
            list@.len() == session_transcript(self.reader(), self.pending()).messages.len(),
            forall|i: int|
                0 <= i < list@.len() ==> (#[trigger] list@[i])@ == session_transcript(
                    self.reader(),
                    self.pending(),
                ).messages[i],
    {
        let mut iter = self;
        let mut list: Vec<NetlinkPacket<'static>> = Vec::new();
        let ghost all = session_transcript(self.reader(), self.pending()).messages;
        loop
            invariant
                iter.wf(),
                all == session_transcript(self.reader(), self.pending()).messages,
                list@.len() + session_transcript(iter.reader(), iter.pending()).messages.len()
                    == all.len(),
                forall|i: int| 0 <= i < list@.len() ==> (#[trigger] list@[i])@ == all[i],
                forall|i: int|
                    0 <= i < session_transcript(iter.reader(), iter.pending()).messages.len()
                        ==> #[trigger] session_transcript(
                        iter.reader(),
                        iter.pending(),
                    ).messages[i] == all[list@.len() + i],
            ensures
                list@.len() == all.len(),
                forall|i: int| 0 <= i < list@.len() ==> (#[trigger] list@[i])@ == all[i],
            decreases
                    iter.pending().len(),
                    iter.reader().buf.len() + 3 - iter.reader().cursor,
        {
            let ghost before = session_transcript(iter.reader(), iter.pending());
            proof {
                iter.lemma_wf_model();
                lemma_read_step(iter.reader(), iter.pending());
            }
            match iter.next() {
                Some(pkt) => {
                    proof {
                        let later = session_transcript(iter.reader(), iter.pending());
                        assert(before == preceded_by(pkt@, later));
                        assert(before.messages[0] == pkt@);
                        assert forall|i: int| 0 <= i < later.messages.len() implies #[trigger]
                            later.messages[i] == all[list@.len() + 1 + i] by {
                            assert(later.messages[i] == before.messages[i + 1]);
                        }
                        iter.lemma_wf_model();
                    }
                    list.push(pkt);
                },
                None => {
                    break ;
                },
            }
        }
        list
    }
}

impl NetlinkReader {
    /// The messages of this reader over a source that holds `chunks`.
    pub fn into_iter(self, chunks: Vec<Vec<u8>>) -> (iter: NetlinkBufIterator)
        requires
            self.wf(),
        ensures
            iter.wf(),
            iter.reader() == self@,
            iter.pending() == chunk_views(chunks@),
    {
        NetlinkBufIterator::new(self, chunks)
    }

    /// Read to end ignoring everything but errors
    pub fn read_to_end(self, chunks: Vec<Vec<u8>>) -> (result: Result<(), ReaderError>)
        requires
            self.wf(),
        ensures
            result == verdict(session_transcript(self@, chunk_views(chunks@))),
    {
        let mut iter = NetlinkBufIterator::new(self, chunks);
        loop
            invariant
                iter.wf(),
                verdict(session_transcript(iter.reader(), iter.pending())) == verdict(
                    session_transcript(self@, chunk_views(chunks@)),
                ),
            decreases
                    iter.pending().len(),
                    iter.reader().buf.len() + 3 - iter.reader().cursor,
        {
            let ghost before = session_transcript(iter.reader(), iter.pending());
            proof {
                iter.lemma_wf_model();
                lemma_read_step(iter.reader(), iter.pending());
            }
            match iter.read_netlink() {
                Ok(Some(pkt)) => {
                    proof {
                        let later = session_transcript(iter.reader(), iter.pending());
                        assert(before.messages[0] == pkt@);
                        assert(before.messages.drop_first() =~= later.messages);
                        iter.lemma_wf_model();
                    }
                    match pkt.to_result() {
                        Some(errno) => {
                            return Err(ReaderError::Errno(errno));
                        },
                        None => {},
                    }
                },
                Ok(None) => {
                    return Ok(());
                },
                Err(e) => {
                    return Err(e);
                },
            }
        }
    }
}


} // verus!
