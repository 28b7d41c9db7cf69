//! The messages that mappers produce and the writer that takes them.

use crate::error::{ConvertError, ConvertResult, ErrorView};
use crate::text::{copy_pairs, pairs};
use std::collections::VecDeque;
use vstd::prelude::*;

verus! {

/// One normalized record, ready for writing. The value holds the field's name
/// and then its value; each tag holds its name and then its value.
#[derive(Debug)]
pub struct Message {
    time: i64,  // seconds since the Unix epoch
    value: (String, String),
    tags: Vec<(String, String)>,
}

/// What a `Message` holds, as plain values.
pub struct MessageView {
    pub time: int,
    pub value: (Seq<char>, Seq<char>),
    pub tags: Seq<(Seq<char>, Seq<char>)>,
}

impl View for Message {
    type V = MessageView;

    closed spec fn view(&self) -> MessageView {
        MessageView {
            time: self.time as int,
            value: (self.value.0@, self.value.1@),
            tags: pairs(self.tags@),
        }
    }
}

impl Message {
    /// A message for the instant `time`, given in seconds since the Unix
    /// epoch.
    pub fn new(time: i64, value: (String, String), tags: Vec<(String, String)>) -> (message:
        Message)
        ensures
            message@ == (MessageView {
                time: time as int,
                value: (value.0@, value.1@),
                tags: pairs(tags@),
            }),
    {
        Message { time, value, tags }
    }

    /// The instant in seconds since the Unix epoch.
    pub fn time(&self) -> (time: i64)
        ensures
            time == self@.time,
    {
        self.time
    }

    /// The field's name and value.
    pub fn value(&self) -> (value: &(String, String))
        ensures
            (value.0@, value.1@) == self@.value,
    {
        &self.value
    }

    /// The tags, each with its name and value.
    pub fn tags(&self) -> (tags: &Vec<(String, String)>)
        ensures
            pairs(tags@) == self@.tags,
    {
        &self.tags
    }

    /// Renders the message into a record of the given series. A message
    /// whose instant does not fit the database's unit comes back unchanged.
    pub fn into_record(self, series: &str) -> (rendered: Result<Record, Message>)
        ensures
            match rendered {
                Ok(record) => self@.writable() && record@ == self@.record(series@),
                Err(message) => !self@.writable() && message@ == self@,
            },
    {
        match self.time.checked_mul(NANOS_PER_SECOND) {
            Some(timestamp) => Ok(
                Record { series: series.to_owned(), field: self.value, timestamp, tags: self.tags },
            ),
            None => Err(self),
        }
    }
}

impl Clone for Message {
    fn clone(&self) -> (copy: Message)
        ensures
            copy@ == self@,
    {
        Message {
            time: self.time,
            value: (self.value.0.clone(), self.value.1.clone()),
            tags: copy_pairs(&self.tags),
        }
    }
}

/// The database counts time in nanoseconds: this many to a second.
pub const NANOS_PER_SECOND: i64 = 1_000_000_000;

impl MessageView {
    /// The instant of the message in the database's unit.
    pub open spec fn nanos(self) -> int {
        self.time * NANOS_PER_SECOND
    }

    /// Whether the instant can be written: its nanoseconds fit the database's
    /// signed 64-bit timestamp.
    pub open spec fn writable(self) -> bool {
        i64::MIN <= self.nanos() <= i64::MAX
    }

    /// The database record of this message in the given series. Field and
    /// tags are kept as they are; only the instant changes its unit.
    pub open spec fn record(self, series: Seq<char>) -> RecordView {
        RecordView { series, field: self.value, timestamp: self.nanos(), tags: self.tags }
    }
}

/// One database record: the series it belongs to, one field, the instant in
/// nanoseconds since the Unix epoch, and any number of tags.
#[derive(Debug)]
pub struct Record {
    pub series: String,
    pub field: (String, String),
    pub timestamp: i64,
    pub tags: Vec<(String, String)>,
}

/// What a `Record` holds, as plain values.
pub struct RecordView {
    pub series: Seq<char>,
    pub field: (Seq<char>, Seq<char>),
    pub timestamp: int,
    pub tags: Seq<(Seq<char>, Seq<char>)>,
}

impl View for Record {
    type V = RecordView;

    open spec fn view(&self) -> RecordView {
        RecordView {
            series: self.series@,
            field: (self.field.0@, self.field.1@),
            timestamp: self.timestamp as int,
            tags: pairs(self.tags@),
        }
    }
}

/// Where the writer's worker stands.
#[derive(Debug, Clone, Copy, PartialEq, Eq, Structural)]
pub enum Phase {
    /// The writer exists; its worker has not asked for work yet.
    Created,
    /// The worker waits for the next item.
    Running,
    /// The worker has been handed a record and is writing it.
    Writing,
    /// The worker has taken the shutdown signal.
    Draining,
    /// The worker is gone.
    Terminated,
}

/// What the worker is to do next.
#[derive(Debug)]
pub enum Action {
    /// Nothing is queued: wait until something is.
    Wait,
    /// Write this record, once, and ask again whatever came of it.
    Write(Record),
    /// This message cannot be written; report it and ask again.
    Reject(Message),
    /// Leave.
    Stop,
}

/// What an `Action` holds, as plain values.
pub enum ActionView {
    Wait,
    Write(RecordView),
    Reject(MessageView),
    Stop,
}

impl View for Action {
    type V = ActionView;

    open spec fn view(&self) -> ActionView {
        match self {
            Action::Wait => ActionView::Wait,
            Action::Write(record) => ActionView::Write(record@),
            Action::Reject(message) => ActionView::Reject(message@),
            Action::Stop => ActionView::Stop,
        }
    }
}

/// The state of a writer, as plain values: where the records go, what is
/// queued (oldest first, `None` being the shutdown signal), and where the
/// worker stands.
pub struct WriterView {
    pub hosts: Seq<char>,
    pub user: Seq<char>,
    pub pass: Seq<char>,
    pub db: Seq<char>,
    pub series: Seq<char>,
    pub queue: Seq<Option<MessageView>>,
    pub phase: Phase,
}

impl WriterView {
    /// Whether the worker has taken the shutdown signal or is gone.
    pub open spec fn stopped(self) -> bool {
        self.phase == Phase::Draining || self.phase == Phase::Terminated
    }

    /// Whether the writer takes no more items: its worker has stopped, or the
    /// shutdown signal is queued.
    pub open spec fn closed(self) -> bool {
        self.stopped() || (self.queue.len() > 0 && self.queue.last() is None)
    }

    /// What every writer satisfies: a shutdown signal is queued at most once
    /// and with nothing behind it, and a stopped worker leaves nothing queued.
    pub open spec fn wf(self) -> bool {
        &&& forall|i: int| 0 <= i < self.queue.len() - 1 ==> (#[trigger] self.queue[i]) is Some
        &&& self.stopped() ==> self.queue.len() == 0
    }

    /// The writer after an attempt to queue a message.
    pub open spec fn send(self, message: MessageView) -> WriterView {
        if self.closed() {
            self
        } else {
            WriterView { queue: self.queue.push(Some(message)), ..self }
        }
    }

    /// The writer after an attempt to queue the shutdown signal.
    pub open spec fn join(self) -> WriterView {
        if self.closed() {
            self
        } else {
            WriterView { queue: self.queue.push(None), ..self }
        }
    }

    /// What the worker is told when it is handed this message.
    pub open spec fn serve(self, message: MessageView) -> ActionView {
        if message.writable() {
            ActionView::Write(message.record(self.series))
        } else {
            ActionView::Reject(message)
        }
    }

    /// The writer after its worker asked for work, and what the worker is
    /// told. The oldest item is served first. Whatever is queued behind the
    /// shutdown signal is dropped with it.
    pub open spec fn poll(self) -> (WriterView, ActionView) {
        if self.stopped() {
            (self, ActionView::Stop)
        } else if self.queue.len() == 0 {
            (WriterView { phase: Phase::Running, ..self }, ActionView::Wait)
        } else {
            match self.queue[0] {
                Some(message) => (
                    WriterView {
                        queue: self.queue.drop_first(),
                        phase: if message.writable() {
                            Phase::Writing
                        } else {
                            Phase::Running
                        },
                        ..self
                    },
                    self.serve(message),
                ),
                None => (
                    WriterView { queue: Seq::empty(), phase: Phase::Draining, ..self },
                    ActionView::Stop,
                ),
            }
        }
    }

    /// The writer after its worker has gone, for whatever reason. What was
    /// still queued is lost.
    pub open spec fn exited(self) -> WriterView {
        WriterView { queue: Seq::empty(), phase: Phase::Terminated, ..self }
    }

    /// The writer after attempts to queue the messages one after the other.
    pub open spec fn send_all(self, messages: Seq<MessageView>) -> WriterView
        decreases messages.len(),
    {
        if messages.len() == 0 {
            self
        } else {
            self.send_all(messages.drop_last()).send(messages.last())
        }
    }

    /// The writer after its worker asked for work `n` times.
    pub open spec fn polled(self, n: nat) -> WriterView
        decreases n,
    {
        if n == 0 {
            self
        } else {
            self.polled((n - 1) as nat).poll().0
        }
    }

}

/// The messages of a queue, as plain values.
pub open spec fn items(queue: Seq<Option<Message>>) -> Seq<Option<MessageView>> {
    queue.map_values(
        |item: Option<Message>|
            match item {
                Some(message) => Some(message@),
                None => None,
            },
    )
}

/// The writer: an unbounded queue of messages in front of a single worker
/// that writes them to the database one by one, in the order in which they
/// were sent. The shutdown signal travels through the same queue, so the
/// worker stops only after everything sent before it has been served.
///
/// The writer itself performs no input or output. The worker asks it what to
/// do with `poll`, carries that out, and asks again.
#[derive(Debug)]
pub struct InfluxClient {
    hosts: String,
    user: String,
    pass: String,
    db: String,
    series: String,
    queue: VecDeque<Option<Message>>,
    phase: Phase,
}

impl View for InfluxClient {
    type V = WriterView;

    closed spec fn view(&self) -> WriterView {
        WriterView {
            hosts: self.hosts@,
            user: self.user@,
            pass: self.pass@,
            db: self.db@,
            series: self.series@,
            queue: items(self.queue@),
            phase: self.phase,
        }
    }
}

impl InfluxClient {
    #[verifier::type_invariant]
    spec fn inv(&self) -> bool {
        self@.wf()
    }

    /// A writer for the given database and series, with nothing queued and a
    /// worker that has not started.
    pub fn new(hosts: String, user: String, pass: String, db: String, series: String) -> (client:
        InfluxClient)
        ensures
            client@ == (WriterView {
                hosts: hosts@,
                user: user@,
                pass: pass@,
                db: db@,
                series: series@,
                queue: Seq::empty(),
                phase: Phase::Created,
            }),
            client@.wf(),
    {
        let queue: VecDeque<Option<Message>> = VecDeque::new();
        assert(items(queue@) == Seq::<Option<MessageView>>::empty());
        InfluxClient { hosts, user, pass, db, series, queue, phase: Phase::Created }
    }

    /// Where the database is reached.
    pub fn hosts(&self) -> (hosts: &str)
        ensures
            hosts@ == self@.hosts,
    {
        self.hosts.as_str()
    }

    /// The user to write as.
    pub fn user(&self) -> (user: &str)
        ensures
            user@ == self@.user,
    {
        self.user.as_str()
    }

    /// The user's password.
    pub fn pass(&self) -> (pass: &str)
        ensures
            pass@ == self@.pass,
    {
        self.pass.as_str()
    }

    /// The database to write to.
    pub fn db(&self) -> (db: &str)
        ensures
            db@ == self@.db,
    {
        self.db.as_str()
    }

    /// The series that the records belong to.
    pub fn series(&self) -> (series: &str)
        ensures
            series@ == self@.series,
    {
        self.series.as_str()
    }

    /// Where the worker stands.
    pub fn phase(&self) -> (phase: Phase)
        ensures
            phase == self@.phase,
    {
        self.phase
    }

    /// The number of items queued, the shutdown signal included.
    pub fn pending(&self) -> (count: usize)
        ensures
            count == self@.queue.len(),
    {
        self.queue.len()
    }

    /// Whether the writer takes no more items.
    pub fn is_closed(&self) -> (closed: bool)
        ensures
            closed == self@.closed(),
            self@.wf(),
    {
        proof {
            use_type_invariant(self);
        }
        match self.phase {
            Phase::Draining | Phase::Terminated => true,
            _ => {
                let n = self.queue.len();
                n > 0 && self.queue[n - 1].is_none()
            },
        }
    }

    /// Queues a message. Fails, handing the message back inside the error,
    /// exactly when the writer is closed.
    pub fn send(&mut self, msg: Message) -> (sent: ConvertResult<()>)
        ensures
            final(self)@ == old(self)@.send(msg@),
            final(self)@.wf(),
            match sent {
                Ok(_) => !old(self)@.closed(),
                Err(e) => old(self)@.closed() && e@ == ErrorView::Send(Some(msg@)),
            },
    {
        if self.is_closed() {
            return Err(ConvertError::Send(Some(msg)));
        }
        let mut queue: VecDeque<Option<Message>> = VecDeque::new();
        std::mem::swap(&mut self.queue, &mut queue);
        let ghost before = queue@;
        queue.push_back(Some(msg));
        proof {
            assert(items(queue@) == items(before).push(Some(msg@)));
        }
        std::mem::swap(&mut self.queue, &mut queue);
        Ok(())
    }

    /// Queues the shutdown signal, after which the writer is closed. Fails
    /// exactly when the writer is closed already.
    pub fn join(&mut self) -> (signalled: ConvertResult<()>)
        ensures
            final(self)@ == old(self)@.join(),
            final(self)@.wf(),
            final(self)@.closed(),
            match signalled {
                Ok(_) => !old(self)@.closed(),
                Err(e) => old(self)@.closed() && e@ == ErrorView::Send(None),
            },
    {
        if self.is_closed() {
            return Err(ConvertError::Send(None));
        }
        let mut queue: VecDeque<Option<Message>> = VecDeque::new();
        std::mem::swap(&mut self.queue, &mut queue);
        let ghost before = queue@;
        queue.push_back(None);
        proof {
            assert(items(queue@) == items(before).push(None));
        }
        std::mem::swap(&mut self.queue, &mut queue);
        Ok(())
    }

    /// Tells the worker what to do next.
    pub fn poll(&mut self) -> (action: Action)
        ensures
            final(self)@ == old(self)@.poll().0,
            action@ == old(self)@.poll().1,
            final(self)@.wf(),
    {
        proof {
            use_type_invariant(&*self);
        }
        match self.phase {
            Phase::Draining | Phase::Terminated => {
                return Action::Stop;
            },
            _ => {},
        }
        let mut queue: VecDeque<Option<Message>> = VecDeque::new();
        std::mem::swap(&mut self.queue, &mut queue);
        let ghost before = queue@;
        let oldest = queue.pop_front();
        proof {
            assert(items(before).len() == before.len());
            if before.len() > 0 {
                assert(items(queue@) == items(before).drop_first());
                if before[0] is None {
                    assert(items(before)[0] is None);
                    assert(queue@.len() == 0);
                }
            }
        }
        std::mem::swap(&mut self.queue, &mut queue);
        match oldest {
            None => {
                self.phase = Phase::Running;
                Action::Wait
            },
            Some(None) => {
                proof {
                    assert(items(self.queue@) == Seq::<Option<MessageView>>::empty());
                }
                self.phase = Phase::Draining;
                Action::Stop
            },
            Some(Some(message)) => {
                proof {
                    assert(items(before)[0] == Some(message@));
                }
                match message.into_record(self.series.as_str()) {
                    Ok(record) => {
                        self.phase = Phase::Writing;
                        Action::Write(record)
                    },
                    Err(message) => {
                        self.phase = Phase::Running;
                        Action::Reject(message)
                    },
                }
            },
        }
    }

    /// Records that the worker has gone.
    pub fn exited(&mut self)
        ensures
            final(self)@ == old(self)@.exited(),
            final(self)@.wf(),
    {
        self.queue = VecDeque::new();
        self.phase = Phase::Terminated;
        proof {
            assert(items(self.queue@) == Seq::<Option<MessageView>>::empty());
        }
    }
}

/// Whatever is done to a writer, it stays well formed.
pub proof fn lemma_writer_stays_well_formed(writer: WriterView, message: MessageView)
    requires
        writer.wf(),
    ensures
        writer.send(message).wf(),
        writer.join().wf(),
        writer.poll().0.wf(),
        writer.exited().wf(),
{
}

/// Closed is closed for good. A shutdown closes the writer; a closed writer
/// turns every later message and every later shutdown away and is left as
/// it was by the attempt; and nothing that its worker does opens it again.
/// A worker that has stopped is only ever told to stop, and one that is gone
/// stays gone.
pub proof fn lemma_closed_for_good(writer: WriterView, message: MessageView)
    requires
        writer.wf(),
    ensures
        writer.join().closed(),
        writer.closed() ==> writer.send(message) == writer && writer.join() == writer,
        writer.closed() ==> writer.poll().0.closed(),
        writer.exited().closed(),
        writer.stopped() ==> writer.poll() == (writer, ActionView::Stop),
        writer.phase == Phase::Terminated ==> writer.exited() == writer,
{
    if writer.closed() && !writer.stopped() {
        let after = writer.poll().0;
        if writer.queue.len() > 1 {
            assert(writer.queue[0] is Some);
            assert(after.queue.last() == writer.queue.last());
        }
    }
    if writer.phase == Phase::Terminated {
        assert(writer.queue == Seq::<Option<MessageView>>::empty());
    }
}

/// What a run of sends leaves in an open writer: the messages, behind what
/// was queued before and in the order in which they were sent.
pub proof fn lemma_send_all(writer: WriterView, messages: Seq<MessageView>)
    requires
        writer.wf(),
        !writer.closed(),
    ensures
        writer.send_all(messages) == (WriterView {
            queue: writer.queue + messages.map_values(|m: MessageView| Some(m)),
            ..writer
        }),
        writer.send_all(messages).wf(),
        !writer.send_all(messages).closed(),
    decreases messages.len(),
{
    let some = |m: MessageView| Some(m);
    if messages.len() == 0 {
        assert(writer.queue + messages.map_values(some) == writer.queue);
    } else {
        lemma_send_all(writer, messages.drop_last());
        let before = writer.send_all(messages.drop_last());
        assert(before.queue.push(Some(messages.last())) == writer.queue + messages.map_values(
            some,
        ));
    }
}

/// What the worker finds after it has been handed the first `n` items of
/// the queue: the rest of the queue, in the same order.
pub proof fn lemma_polled(writer: WriterView, n: nat)
    requires
        writer.wf(),
        !writer.stopped(),
        n <= writer.queue.len(),
        forall|j: int| 0 <= j < n ==> (#[trigger] writer.queue[j]) is Some,
    ensures
        writer.polled(n).queue == writer.queue.skip(n as int),
        writer.polled(n).series == writer.series,
        !writer.polled(n).stopped(),
        writer.polled(n).wf(),
    decreases n,
{
    if n == 0 {
        assert(writer.queue.skip(0) == writer.queue);
    } else {
        lemma_polled(writer, (n - 1) as nat);
        let before = writer.polled((n - 1) as nat);
        assert(before.queue[0] == writer.queue[n - 1]);
        assert(before.queue.drop_first() == writer.queue.skip(n as int));
    }
}

/// Messages reach the database in the order in which they were sent, and
/// the shutdown comes after the last of them. Take a writer that is open,
/// with nothing queued; send it the messages, one after the other, and then
/// the shutdown signal. The worker is then handed the first message when it
/// first asks, the second when it asks again, and so on: a record to write
/// for each message that can be written, the message itself for each that
/// cannot. When all are served it is told to stop, and it has stopped then.
pub proof fn lemma_served_in_order(writer: WriterView, messages: Seq<MessageView>)
    requires
        writer.wf(),
        !writer.closed(),
        writer.queue.len() == 0,
    ensures
        forall|i: nat|
            i < messages.len() ==> (#[trigger] writer.send_all(messages).join().polled(i)).poll().1
                == writer.serve(messages[i as int]),
        writer.send_all(messages).join().polled(messages.len()).poll().1 == ActionView::Stop,
        writer.send_all(messages).join().polled(messages.len() + 1).stopped(),
{
    lemma_send_all(writer, messages);
    let sent = writer.send_all(messages);
    let closing = sent.join();
    let n = messages.len();
    assert(closing.queue.len() == n + 1);
    assert(closing.queue[n as int] is None);
    assert forall|j: int| 0 <= j < n implies (#[trigger] closing.queue[j]) == Some(
        messages[j],
    ) by {
        assert(closing.queue[j] == sent.queue[j]);
    }
    assert forall|i: nat| i < n implies (#[trigger] closing.polled(i)).poll().1 == writer.serve(
        messages[i as int],
    ) by {
        lemma_polled(closing, i);
        assert(closing.polled(i).queue[0] == closing.queue[i as int]);
    }
    lemma_polled(closing, n);
    assert(closing.polled(n).queue[0] == closing.queue[n as int]);
    assert(closing.polled(n + 1) == closing.polled(n).poll().0);
}

} // verus!
