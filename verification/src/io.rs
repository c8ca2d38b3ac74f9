//! Input and output abstractions of the conversion kernel.
//!
//! An [`InputHandle`] is a random-access, read-only byte source; an [`OutputSink`]
//! hands out one [`OutputHandle`] per produced file. [`MemSink`] collects every
//! output in memory, in the order in which the outputs are closed.
use vstd::prelude::*;

verus! {

/// The error type of every I/O operation of the kernel.
#[verifier::external_type_specification]
#[verifier::external_body]
pub struct ExIoError(std::io::Error);

/// Random-access, read-only source of bytes.
pub trait InputHandle: Send + Sync {
    /// The bytes of the source. An implementation that does not define them (it keeps
    /// this default) is read as an arbitrary fixed sequence of bytes: the contracts
    /// that speak of its contents then say nothing tied to the bytes it actually holds.
    open spec fn contents(&self) -> Seq<u8> {
        vstd::pervasive::arbitrary()
    }

    /// Whether every read of the source succeeds. A source that does not say so may
    /// report an error on any read.
    open spec fn reads_never_fail(&self) -> bool {
        false
    }

    /// Total size of the source in bytes.
    fn size(&self) -> (n: u64)
        ensures
            n as int == self.contents().len(),
    ;

    /// Reads up to `buf.len()` bytes starting at `offset` and returns how many were
    /// read. The count may be short, but it is zero only at or past the end.
    fn read_at(&self, offset: u64, buf: &mut [u8]) -> (r: Result<usize, std::io::Error>)
        ensures
            final(buf)@.len() == old(buf)@.len(),
            r matches Ok(n) ==> read_result_ok(self.contents(), offset as int, old(buf)@, final(buf)@, n as int),
            self.reads_never_fail() ==> r is Ok,
    ;
}

/// What a successful `read_at` of `n` bytes at `offset` into a buffer guarantees.
pub open spec fn read_result_ok(data: Seq<u8>, offset: int, before: Seq<u8>, after: Seq<u8>, n: int) -> bool {
    &&& 0 <= n <= before.len()
    &&& offset >= data.len() ==> n == 0
    &&& offset < data.len() ==> n <= data.len() - offset
    &&& offset < data.len() && before.len() > 0 ==> n > 0
    &&& forall|i: int| 0 <= i < n ==> #[trigger] after[i] == data[offset + i]
}

/// The number of bytes a read of `want` bytes at `offset` gets from `len` bytes.
pub open spec fn slice_read_len(len: int, offset: int, want: int) -> int {
    if offset >= len {
        0
    } else if want < len - offset {
        want
    } else {
        len - offset
    }
}

/// Copies the bytes of `data` starting at `offset` into `buf`, as many as fit, and
/// returns how many were copied (zero at or past the end of `data`).
pub fn read_slice(data: &[u8], offset: u64, buf: &mut [u8]) -> (n: usize)
    ensures
        n as int == slice_read_len(data@.len() as int, offset as int, old(buf)@.len() as int),
        final(buf)@.len() == old(buf)@.len(),
        forall|i: int| 0 <= i < n ==> #[trigger] final(buf)@[i] == data@[offset + i],
        forall|i: int| n <= i < final(buf)@.len() ==> #[trigger] final(buf)@[i] == old(buf)@[i],
{
    if offset >= data.len() as u64 {
        return 0;
    }
    let off = offset as usize;
    let n = if buf.len() < data.len() - off {
        buf.len()
    } else {
        data.len() - off
    };
    let mut i: usize = 0;
    while i < n
        invariant
            n <= buf@.len(),
            off + n <= data@.len(),
            data@.len() == data.len(),
            off == offset,
            i <= n,
            buf@.len() == old(buf)@.len(),
            forall|j: int| 0 <= j < i ==> #[trigger] buf@[j] == data@[off + j],
            forall|j: int| n <= j < buf@.len() ==> #[trigger] buf@[j] == old(buf)@[j],
        decreases n - i,
    {
        buf[i] = data[off + i];
        i += 1;
    }
    n
}

impl InputHandle for Vec<u8> {
    open spec fn contents(&self) -> Seq<u8> {
        self@
    }

    open spec fn reads_never_fail(&self) -> bool {
        true
    }

    fn size(&self) -> (n: u64) {
        self.len() as u64
    }

    fn read_at(&self, offset: u64, buf: &mut [u8]) -> (r: Result<usize, std::io::Error>)
        ensures
            r matches Ok(n) && n as int == slice_read_len(self@.len() as int, offset as int, old(buf)@.len() as int),
    {
        Ok(read_slice(self.as_slice(), offset, buf))
    }
}

impl InputHandle for &'static [u8] {
    open spec fn contents(&self) -> Seq<u8> {
        (*self)@
    }

    open spec fn reads_never_fail(&self) -> bool {
        true
    }

    fn size(&self) -> (n: u64) {
        self.len() as u64
    }

    fn read_at(&self, offset: u64, buf: &mut [u8]) -> (r: Result<usize, std::io::Error>)
        ensures
            r matches Ok(n) && n as int == slice_read_len((*self)@.len() as int, offset as int, old(buf)@.len() as int),
    {
        Ok(read_slice(*self, offset, buf))
    }
}

/// A single open output (one GLB, or an index JSON). Writing ends with `close`.
pub trait OutputHandle {
    /// Appends `buf` to the output.
    fn write(&mut self, buf: &[u8]) -> Result<(), std::io::Error>;

    /// Finishes the output; nothing is written to it afterwards.
    fn close(&mut self);
}

/// Factory for outputs: one handle per produced file, each written and closed before
/// the next one is opened.
pub trait OutputSink {
    /// The handle type, which may borrow the sink while it is open.
    type Handle<'a>: OutputHandle where Self: 'a;

    /// Opens the output called `name`.
    fn open<'a>(&'a mut self, name: &str) -> Result<Self::Handle<'a>, std::io::Error>;
}

/// The state of a [`MemSink`] as plain values: the finished outputs, in completion
/// order, and the output being written, if one is open.
pub struct SinkState {
    pub outputs: Seq<(Seq<char>, Seq<u8>)>,
    pub open: Option<(Seq<char>, Seq<u8>)>,
}

/// One call on a memory sink or on its open output.
pub enum SinkCall {
    /// Open an output of this name.
    Open(Seq<char>),
    /// Append these bytes to the open output.
    Write(Seq<u8>),
    /// Finish the open output.
    Close,
}

/// The `(name, bytes)` pairs of collected outputs as plain values.
pub open spec fn outputs_view(files: Seq<(String, Vec<u8>)>) -> Seq<(Seq<char>, Seq<u8>)> {
    files.map_values(|f: (String, Vec<u8>)| (f.0@, f.1@))
}

/// What one call does: opening starts an empty output, a write appends to the open
/// output, closing adds the open output to the finished ones.
pub open spec fn sink_step(s: SinkState, c: SinkCall) -> SinkState {
    match c {
        SinkCall::Open(name) => SinkState { outputs: s.outputs, open: Some((name, Seq::empty())) },
        SinkCall::Write(bytes) => match s.open {
            Some((name, buf)) => SinkState { outputs: s.outputs, open: Some((name, buf + bytes)) },
            None => s,
        },
        SinkCall::Close => match s.open {
            Some((name, buf)) => SinkState { outputs: s.outputs.push((name, buf)), open: None },
            None => s,
        },
    }
}

/// The state after a sequence of calls.
pub open spec fn sink_run(s: SinkState, calls: Seq<SinkCall>) -> SinkState
    decreases calls.len(),
{
    if calls.len() == 0 {
        s
    } else {
        sink_step(sink_run(s, calls.drop_last()), calls.last())
    }
}

/// The concatenation of a sequence of writes.
pub open spec fn concat_writes(ws: Seq<Seq<u8>>) -> Seq<u8>
    decreases ws.len(),
{
    if ws.len() == 0 {
        Seq::empty()
    } else {
        concat_writes(ws.drop_last()) + ws.last()
    }
}

/// The write calls of a sequence of writes.
pub open spec fn write_calls(ws: Seq<Seq<u8>>) -> Seq<SinkCall> {
    ws.map_values(|w: Seq<u8>| SinkCall::Write(w))
}

/// The calls of outputs written one after another: each is opened, written and closed.
pub open spec fn session_calls(sessions: Seq<(Seq<char>, Seq<Seq<u8>>)>) -> Seq<SinkCall>
    decreases sessions.len(),
{
    if sessions.len() == 0 {
        Seq::empty()
    } else {
        let (name, ws) = sessions.last();
        session_calls(sessions.drop_last()) + seq![SinkCall::Open(name)] + write_calls(ws) + seq![SinkCall::Close]
    }
}

/// What those outputs are: each name with the concatenation of its writes.
pub open spec fn session_outputs(sessions: Seq<(Seq<char>, Seq<Seq<u8>>)>) -> Seq<(Seq<char>, Seq<u8>)> {
    sessions.map_values(|x: (Seq<char>, Seq<Seq<u8>>)| (x.0, concat_writes(x.1)))
}

/// Running two sequences of calls one after the other.
pub proof fn lemma_sink_run_append(s: SinkState, a: Seq<SinkCall>, b: Seq<SinkCall>)
    ensures
        sink_run(s, a + b) == sink_run(sink_run(s, a), b),
    decreases b.len(),
{
    if b.len() == 0 {
        assert(a + b =~= a);
    } else {
        assert((a + b).drop_last() =~= a + b.drop_last());
        lemma_sink_run_append(s, a, b.drop_last());
    }
}

/// Writes to an open output append to it, in order.
pub proof fn lemma_sink_run_writes(outputs: Seq<(Seq<char>, Seq<u8>)>, name: Seq<char>, buf: Seq<u8>, ws: Seq<Seq<u8>>)
    ensures
        sink_run(SinkState { outputs, open: Some((name, buf)) }, write_calls(ws))
            == (SinkState { outputs, open: Some((name, buf + concat_writes(ws))) }),
    decreases ws.len(),
{
    if ws.len() == 0 {
        assert(buf + concat_writes(ws) =~= buf);
    } else {
        assert(write_calls(ws).drop_last() =~= write_calls(ws.drop_last()));
        lemma_sink_run_writes(outputs, name, buf, ws.drop_last());
        assert(buf + concat_writes(ws.drop_last()) + ws.last() =~= buf + concat_writes(ws));
    }
}

/// A single call.
pub proof fn lemma_sink_run_one(s: SinkState, c: SinkCall)
    ensures
        sink_run(s, seq![c]) == sink_step(s, c),
{
    assert(seq![c].drop_last() =~= Seq::<SinkCall>::empty());
    reveal_with_fuel(sink_run, 2);
}

/// One output opened on a sink with none open and written to, then closed.
pub proof fn lemma_sink_run_session(s: SinkState, name: Seq<char>, ws: Seq<Seq<u8>>)
    requires
        s.open is None,
    ensures
        sink_run(s, seq![SinkCall::Open(name)] + write_calls(ws))
            == (SinkState { outputs: s.outputs, open: Some((name, concat_writes(ws))) }),
        sink_run(s, seq![SinkCall::Open(name)] + write_calls(ws) + seq![SinkCall::Close])
            == (SinkState { outputs: s.outputs.push((name, concat_writes(ws))), open: None }),
{
    lemma_sink_run_one(s, SinkCall::Open(name));
    lemma_sink_run_append(s, seq![SinkCall::Open(name)], write_calls(ws));
    lemma_sink_run_writes(s.outputs, name, Seq::empty(), ws);
    assert(Seq::<u8>::empty() + concat_writes(ws) =~= concat_writes(ws));
    let opened = SinkState { outputs: s.outputs, open: Some((name, concat_writes(ws))) };
    lemma_sink_run_append(s, seq![SinkCall::Open(name)] + write_calls(ws), seq![SinkCall::Close]);
    lemma_sink_run_one(opened, SinkCall::Close);
}

/// Outputs come back in completion order: when outputs are opened, written and
/// closed one after another on a sink, each closed output adds one `(name, bytes)`
/// pair, in the order of closing, holding the concatenation of what was written to
/// it; an output still open (its handle alive) adds nothing to the finished ones.
pub proof fn law_outputs_in_completion_order(
    outputs: Seq<(Seq<char>, Seq<u8>)>,
    done: Seq<(Seq<char>, Seq<Seq<u8>>)>,
    name: Seq<char>,
    pending: Seq<Seq<u8>>,
)
    ensures
        sink_run(SinkState { outputs, open: None }, session_calls(done))
            == (SinkState { outputs: outputs + session_outputs(done), open: None }),
        sink_run(SinkState { outputs, open: None }, session_calls(done) + seq![SinkCall::Open(name)] + write_calls(pending)).outputs
            == outputs + session_outputs(done),
    decreases done.len(),
{
    let s0 = SinkState { outputs, open: None };
    if done.len() == 0 {
        assert(outputs + session_outputs(done) =~= outputs);
    } else {
        let rest = done.drop_last();
        let (n, ws) = done.last();
        law_outputs_in_completion_order(outputs, rest, name, pending);
        let mid = SinkState { outputs: outputs + session_outputs(rest), open: None };
        let one = seq![SinkCall::Open(n)] + write_calls(ws) + seq![SinkCall::Close];
        assert(session_calls(done) =~= session_calls(rest) + one);
        lemma_sink_run_append(s0, session_calls(rest), one);
        lemma_sink_run_session(mid, n, ws);
        assert(session_outputs(done) =~= session_outputs(rest).push((n, concat_writes(ws))));
        assert(mid.outputs.push((n, concat_writes(ws))) =~= outputs + session_outputs(done));
    }
    let after = SinkState { outputs: outputs + session_outputs(done), open: None };
    let tail = seq![SinkCall::Open(name)] + write_calls(pending);
    assert(session_calls(done) + seq![SinkCall::Open(name)] + write_calls(pending) =~= session_calls(done) + tail);
    lemma_sink_run_append(s0, session_calls(done), tail);
    lemma_sink_run_session(after, name, pending);
}

/// Collects every output as a `(name, bytes)` pair, in completion order. An output
/// is complete once its handle is closed or dropped; a handle borrows the sink, so
/// one output is written at a time. Its pair joins the sink when it is opened and
/// grows with each write, so dropping the handle completes it like closing does.
pub struct MemSink {
    files: Vec<(String, Vec<u8>)>,
}

/// An output of a [`MemSink`] that is being written: the last of the sink's outputs.
pub struct MemSinkHandle<'a> {
    /// The outputs of the sink, this one last.
    pub files: &'a mut Vec<(String, Vec<u8>)>,
}

impl MemSink {
    /// The outputs collected so far, in completion order.
    pub closed spec fn outputs(&self) -> Seq<(String, Vec<u8>)> {
        self.files@
    }

    /// The sink as plain values (no output is open on it).
    pub open spec fn sink_state(&self) -> SinkState {
        SinkState { outputs: outputs_view(self.outputs()), open: None }
    }

    /// An empty sink.
    pub fn new() -> (s: MemSink)
        ensures
            s.outputs() == Seq::<(String, Vec<u8>)>::empty(),
    {
        MemSink { files: Vec::new() }
    }

    /// The collected outputs, in completion order.
    pub fn into_files(self) -> (r: Vec<(String, Vec<u8>)>)
        ensures
            r@ == self.outputs(),
            outputs_view(r@) == self.sink_state().outputs,
    {
        self.files
    }

    /// Opens the output called `name`, empty. Once the handle is gone (closed or
    /// dropped) the sink holds the output with what was written to it (see
    /// [`MemSinkHandle::lemma_release_completes`]).
    pub fn open_output<'a>(&'a mut self, name: &str) -> (h: MemSinkHandle<'a>)
        ensures
            outputs_view((*h.files)@) == outputs_view(old(self).outputs()).push((name@, Seq::<u8>::empty())),
            final(self).outputs() == (*final(h.files))@,
            h.handle_state() == sink_step(old(self).sink_state(), SinkCall::Open(name@)),
    {
        self.files.push((name.to_string(), Vec::new()));
        let h = MemSinkHandle { files: &mut self.files };
        assert(outputs_view((*h.files)@) =~= outputs_view(old(self).outputs()).push((name@, Seq::<u8>::empty())));
        assert(outputs_view((*h.files)@.drop_last()) =~= outputs_view(old(self).outputs()));
        h
    }
}

impl<'a> MemSinkHandle<'a> {
    /// The sink with this output open, as plain values: the outputs before it, and
    /// this one being written.
    pub open spec fn handle_state(&self) -> SinkState {
        let f = (*self.files)@;
        if f.len() == 0 {
            SinkState { outputs: Seq::empty(), open: None }
        } else {
            SinkState { outputs: outputs_view(f.drop_last()), open: Some((f.last().0@, f.last().1@)) }
        }
    }

    /// The outputs of the sink, this one last.
    pub open spec fn entries(&self) -> Seq<(String, Vec<u8>)> {
        (*self.files)@
    }

    /// Once the handle is gone, what the sink holds is the output completed: the
    /// outputs before it, then this one with everything written to it.
    pub proof fn lemma_release_completes(&self)
        ensures
            sink_step(self.handle_state(), SinkCall::Close)
                == (SinkState { outputs: outputs_view(self.entries()), open: None }),
    {
        let f = (*self.files)@;
        if f.len() == 0 {
            assert(outputs_view(f) =~= Seq::<(Seq<char>, Seq<u8>)>::empty());
        } else {
            assert(f =~= f.drop_last().push(f.last()));
            assert(outputs_view(f) =~= outputs_view(f.drop_last()).push((f.last().0@, f.last().1@)));
        }
    }

    /// Appends `data` to the output.
    pub fn append(&mut self, data: &[u8])
        ensures
            (*final(self).files)@.len() == (*old(self).files)@.len(),
            *final(final(self).files) == *final(old(self).files),
            final(self).handle_state() == sink_step(old(self).handle_state(), SinkCall::Write(data@)),
    {
        if self.files.len() == 0 {
            return;
        }
        let ghost f = (*self.files)@;
        let (name, mut buf) = self.files.pop().unwrap();
        assert((*self.files)@ == f.drop_last());
        let ghost before = buf@;
        let mut i: usize = 0;
        while i < data.len()
            invariant
                i <= data@.len(),
                buf@ == before + data@.subrange(0, i as int),
            decreases data.len() - i,
        {
            buf.push(data[i]);
            i += 1;
        }
        assert(data@.subrange(0, data@.len() as int) == data@);
        self.files.push((name, buf));
        assert((*self.files)@.drop_last() == f.drop_last());
    }
}

impl<'a> OutputHandle for MemSinkHandle<'a> {
    fn write(&mut self, buf: &[u8]) -> (r: Result<(), std::io::Error>)
        ensures
            r is Ok,
            (*final(self).files)@.len() == (*old(self).files)@.len(),
            *final(final(self).files) == *final(old(self).files),
            final(self).handle_state() == sink_step(old(self).handle_state(), SinkCall::Write(buf@)),
    {
        self.append(buf);
        Ok(())
    }

    fn close(&mut self)
        ensures
            (*final(self).files)@ == (*old(self).files)@,
            *final(final(self).files) == *final(old(self).files),
            sink_step(old(self).handle_state(), SinkCall::Close)
                == (SinkState { outputs: outputs_view((*final(self).files)@), open: None }),
    {
        proof {
            self.lemma_release_completes();
        }
    }
}

/// A sink that writes each output as a file `<dir>/<name>` (the file system work is
/// the host's; this holds the directory).
pub struct DirSink {
    dir: String,
}

impl DirSink {
    /// The directory the outputs go to.
    pub closed spec fn spec_dir(&self) -> Seq<char> {
        self.dir@
    }

    /// A sink writing into `dir`.
    pub fn new(dir: &str) -> (s: DirSink)
        ensures
            s.spec_dir() == dir@,
    {
        DirSink { dir: dir.to_string() }
    }

    /// The directory the outputs go to.
    pub fn dir(&self) -> (d: &str)
        ensures
            d@ == self.spec_dir(),
    {
        self.dir.as_str()
    }
}

impl OutputSink for MemSink {
    type Handle<'a> = MemSinkHandle<'a>;

    fn open<'a>(&'a mut self, name: &str) -> (r: Result<MemSinkHandle<'a>, std::io::Error>)
        ensures
            r matches Ok(h) && outputs_view((*h.files)@) == outputs_view(old(self).outputs()).push((name@, Seq::<u8>::empty())),
            r matches Ok(h) ==> final(self).outputs() == (*final(h.files))@,
            r matches Ok(h) ==> h.handle_state() == sink_step(old(self).sink_state(), SinkCall::Open(name@)),
    {
        Ok(self.open_output(name))
    }
}

} // verus!
