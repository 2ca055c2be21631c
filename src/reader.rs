//! The per-session read loop, as a step function. The host performs each
//! blocking read and hands its outcome to `ReaderLoop::step`, which decides
//! whether to publish an event or to stop for good.
use vstd::prelude::*;
use vstd::string::*;
use vstd::utf8::*;

verus! {

/// The most bytes that one read takes from a session's PTY.
pub const READ_CHUNK: usize = 1024;

/// The text that lossy UTF-8 decoding gives for `b`.
pub uninterp spec fn lossy_text(b: Seq<u8>) -> Seq<char>;

/// Relies on `String::from_utf8_lossy`: each invalid sequence becomes U+FFFD,
/// and bytes that are valid UTF-8 decode to exactly their characters.
#[verifier::external_body]
fn decode_lossy(b: &[u8]) -> (r: String)
    ensures
        r@ == lossy_text(b@),
        valid_utf8(b@) ==> r@ == decode_utf8(b@),
{
    String::from_utf8_lossy(b).into_owned()
}

/// The name of the event channel that carries the output of session `id`.
pub open spec fn channel_of(id: Seq<char>) -> Seq<char> {
    "term-data:"@ + id
}

/// One chunk of a session's output, addressed to the front-end.
pub struct TermEvent {
    pub channel: String,
    pub id: String,
    pub data: String,
}

/// The channel name for session `id`.
pub fn channel_name(id: &String) -> (r: String)
    ensures
        r@ == channel_of(id@),
{
    let mut r = String::from_str("term-data:");
    r.append(id.as_str());
    r
}

/// The event that publishes `data` as output of session `id`.
pub fn term_event(id: &String, data: String) -> (e: TermEvent)
    ensures
        e.channel@ == channel_of(id@),
        e.id@ == id@,
        e.data@ == data@,
{
    TermEvent { channel: channel_name(id), id: id.clone(), data }
}

/// The event for a chunk of raw output of session `id`.
pub fn chunk_event(id: &String, bytes: &[u8]) -> (e: TermEvent)
    ensures
        e.channel@ == channel_of(id@),
        e.id@ == id@,
        e.data@ == lossy_text(bytes@),
{
    term_event(id, decode_lossy(bytes))
}

/// What one read returned: `Some(bytes)` for a successful read (empty at end
/// of stream), `None` for a read error.
pub open spec fn read_view(read: Option<&[u8]>) -> Option<Seq<u8>> {
    match read {
        Some(b) => Some(b@),
        None => None,
    }
}

/// Whether a loop in state `finished` publishes an event for `read`: only a
/// running loop, and only for a read of at least one byte.
pub open spec fn delivers(finished: bool, read: Option<Seq<u8>>) -> bool {
    match read {
        Some(b) => !finished && b.len() > 0,
        None => false,
    }
}

/// The loop's bookkeeping after `read`: whether it has finished, and the texts
/// published so far.
pub open spec fn step_model(finished: bool, delivered: Seq<Seq<char>>, read: Option<Seq<u8>>) -> (
    bool,
    Seq<Seq<char>>,
) {
    match read {
        Some(b) => if delivers(finished, read) {
            (false, delivered.push(lossy_text(b)))
        } else {
            (true, delivered)
        },
        None => (true, delivered),
    }
}

/// The loop's bookkeeping after the reads `reads`, one after the other.
pub open spec fn run_model(finished: bool, delivered: Seq<Seq<char>>, reads: Seq<Option<Seq<u8>>>) -> (
    bool,
    Seq<Seq<char>>,
)
    decreases reads.len(),
{
    if reads.len() == 0 {
        (finished, delivered)
    } else {
        let (f, d) = step_model(finished, delivered, reads[0]);
        run_model(f, d, reads.drop_first())
    }
}

/// Running reads one after the other is running the first part, then the rest.
proof fn lemma_run_append(f: bool, d: Seq<Seq<char>>, a: Seq<Option<Seq<u8>>>, b: Seq<Option<Seq<u8>>>)
    ensures
        run_model(f, d, a + b) == run_model(run_model(f, d, a).0, run_model(f, d, a).1, b),
    decreases a.len(),
{
    if a.len() == 0 {
        assert(a + b =~= b);
    } else {
        let (f2, d2) = step_model(f, d, a[0]);
        assert((a + b).drop_first() =~= a.drop_first() + b);
        lemma_run_append(f2, d2, a.drop_first(), b);
    }
}

/// A stopped loop publishes nothing more, whatever it is handed: termination
/// is permanent.
pub proof fn lemma_stopped_stays_stopped(delivered: Seq<Seq<char>>, reads: Seq<Option<Seq<u8>>>)
    ensures
        run_model(true, delivered, reads) == (true, delivered),
    decreases reads.len(),
{
    if reads.len() > 0 {
        lemma_stopped_stays_stopped(delivered, reads.drop_first());
    }
}

/// Reads of at least one byte each are published one text per read, in the
/// order they were read, and the loop keeps running.
pub proof fn lemma_chunks_published_in_order(delivered: Seq<Seq<char>>, chunks: Seq<Seq<u8>>)
    requires
        forall|i: int| 0 <= i < chunks.len() ==> #[trigger] chunks[i].len() > 0,
    ensures
        run_model(false, delivered, chunks.map_values(|b: Seq<u8>| Some(b))) == (
            false,
            delivered + chunks.map_values(|b: Seq<u8>| lossy_text(b)),
        ),
    decreases chunks.len(),
{
    let reads = chunks.map_values(|b: Seq<u8>| Some(b));
    if chunks.len() == 0 {
        assert(delivered + chunks.map_values(|b: Seq<u8>| lossy_text(b)) =~= delivered);
    } else {
        let rest = chunks.drop_first();
        assert(reads.drop_first() =~= rest.map_values(|b: Seq<u8>| Some(b)));
        assert(chunks[0].len() > 0);
        lemma_chunks_published_in_order(delivered.push(lossy_text(chunks[0])), rest);
        assert(delivered.push(lossy_text(chunks[0])) + rest.map_values(|b: Seq<u8>| lossy_text(b))
            =~= delivered + chunks.map_values(|b: Seq<u8>| lossy_text(b)));
    }
}

/// A session's output, read as non-empty chunks and then ended by end of
/// stream or a read error (`end`), is published in production order: the
/// published texts are the decoded chunks, their concatenation is the
/// concatenation of the decoded chunks, and nothing handed to the loop
/// afterwards is published.
pub proof fn lemma_output_in_order(
    chunks: Seq<Seq<u8>>,
    end: Option<Seq<u8>>,
    after: Seq<Option<Seq<u8>>>,
)
    requires
        forall|i: int| 0 <= i < chunks.len() ==> #[trigger] chunks[i].len() > 0,
        !delivers(false, end),
    ensures
        ({
            let (f, d) = run_model(
                false,
                Seq::empty(),
                chunks.map_values(|b: Seq<u8>| Some(b)) + seq![end] + after,
            );
            &&& f
            &&& d == chunks.map_values(|b: Seq<u8>| lossy_text(b))
            &&& d.flatten() == chunks.map_values(|b: Seq<u8>| lossy_text(b)).flatten()
        }),
{
    let e = Seq::<Seq<char>>::empty();
    let reads = chunks.map_values(|b: Seq<u8>| Some(b));
    let texts = chunks.map_values(|b: Seq<u8>| lossy_text(b));
    lemma_chunks_published_in_order(e, chunks);
    assert(e + texts =~= texts);
    lemma_run_append(false, e, reads + seq![end], after);
    lemma_run_append(false, e, reads, seq![end]);
    assert(seq![end].drop_first() =~= Seq::<Option<Seq<u8>>>::empty());
    assert(run_model(false, e, reads) == (false, texts));
    assert(step_model(false, texts, end) == (true, texts));
    assert(run_model(false, texts, seq![end]) == run_model(true, texts, seq![end].drop_first()));
    assert(run_model(false, e, reads + seq![end]) == (true, texts));
    lemma_stopped_stays_stopped(texts, after);
}

/// Distinct sessions publish on distinct channels, so no chunk of one session
/// reaches the other's listeners.
pub proof fn lemma_channels_separate(a: Seq<char>, b: Seq<char>)
    ensures
        channel_of(a) == channel_of(b) <==> a == b,
{
    let p = "term-data:"@;
    if channel_of(a) == channel_of(b) {
        assert(a =~= channel_of(a).subrange(p.len() as int, channel_of(a).len() as int));
        assert(b =~= channel_of(b).subrange(p.len() as int, channel_of(b).len() as int));
    }
}

/// The read loop of one session.
pub struct ReaderLoop {
    id: String,
    finished: bool,
    delivered: Ghost<Seq<Seq<char>>>,
}

impl ReaderLoop {
    /// The id of the session whose output this loop reads.
    pub closed spec fn session(&self) -> Seq<char> {
        self.id@
    }

    /// Whether the loop has stopped.
    pub closed spec fn finished(&self) -> bool {
        self.finished
    }

    /// The texts published so far, in order.
    pub closed spec fn delivered(&self) -> Seq<Seq<char>> {
        self.delivered@
    }

    /// A running loop for session `id` that has published nothing yet.
    pub fn new(id: String) -> (r: Self)
        ensures
            r.session() == id@,
            !r.finished(),
            r.delivered() == Seq::<Seq<char>>::empty(),
    {
        ReaderLoop { id, finished: false, delivered: Ghost(Seq::empty()) }
    }

    /// Whether the loop has stopped; once it has, it never runs again.
    pub fn is_finished(&self) -> (r: bool)
        ensures
            r == self.finished(),
    {
        self.finished
    }

    /// Takes the outcome of one read. A read of at least one byte while
    /// running yields the event that publishes its text; end of stream (an
    /// empty read) or a read error stops the loop, and a stopped loop yields
    /// nothing.
    pub fn step(&mut self, read: Option<&[u8]>) -> (ev: Option<TermEvent>)
        ensures
            final(self).session() == old(self).session(),
            (final(self).finished(), final(self).delivered()) == step_model(
                old(self).finished(),
                old(self).delivered(),
                read_view(read),
            ),
            ev is Some <==> delivers(old(self).finished(), read_view(read)),
            ev matches Some(e) ==> e.id@ == old(self).session() && e.channel@ == channel_of(
                old(self).session(),
            ) && e.data@ == final(self).delivered().last(),
    {
        if self.finished {
            return None;
        }
        match read {
            Some(bytes) => {
                if bytes.len() == 0 {
                    self.finished = true;
                    None
                } else {
                    let e = chunk_event(&self.id, bytes);
                    self.delivered = Ghost(self.delivered@.push(lossy_text(bytes@)));
                    Some(e)
                }
            },
            None => {
                self.finished = true;
                None
            },
        }
    }
}

} // verus!
