//! Progress reporting hooks.
//!
//! The library never prints. Long-running operations report through this trait so that frontends
//! can render progress while standard output stays machine-usable.
use vstd::prelude::*;

verus! {

/// Observer for operation progress.
///
/// Events arrive in phases: `step` announces what is happening, `bytes` streams transfer progress
/// within the current step, and `finished` marks the end of a whole operation (always called,
/// possibly more than once; implementations must tolerate that).
pub trait Progress {
    /// Whether the observer may be told that so much is transferred. Most take anything.
    open spec fn takes(&self, transferred: u64, total: Option<u64>) -> bool {
        true
    }

    /// A new phase began (e.g. "Uploading sample.pdf").
    fn step(&self, message: &str);

    /// Byte-transfer progress within the current step. `total` is `None` for streams of unknown
    /// length.
    fn bytes(&self, transferred: u64, total: Option<u64>)
        requires
            self.takes(transferred, total),
    ;

    /// The current byte transfer completed.
    fn bytes_done(&self);

    /// The whole operation completed (successfully or not).
    fn finished(&self);
}

/// Ignores all progress events.
#[derive(Debug, Clone, Copy)]
pub struct NoProgress;

impl Progress for NoProgress {
    fn step(&self, _message: &str) {
    }

    fn bytes(&self, _transferred: u64, _total: Option<u64>) {
    }

    fn bytes_done(&self) {
    }

    fn finished(&self) {
    }
}

impl Default for NoProgress {
    fn default() -> (r: Self)
        ensures
            r == NoProgress,
    {
        NoProgress
    }
}

/// Size of the pieces in which bytes are transferred.
pub const CHUNK: usize = 65536;

/// Where the piece that starts at `at` ends.
pub fn chunk_end(at: usize, len: usize) -> (end: usize)
    requires
        at <= len,
    ensures
        end == if at + CHUNK <= len {
            at + CHUNK
        } else {
            len as int
        },
{
    if len - at >= CHUNK {
        at + CHUNK
    } else {
        len
    }
}

/// Whether a transfer of `len` bytes reports that `n` are transferred: it does so at the end of
/// each full piece, and at the end of all.
pub open spec fn is_report(n: int, len: int) -> bool {
    0 < n <= len && (n % (CHUNK as int) == 0 || n == len)
}

/// Copies bytes in pieces, reporting after each how much is transferred. The observer is told
/// nothing but the ends of pieces, and the total as it was given.
pub fn copy_with_progress<P: Progress>(
    data: &[u8],
    out: &mut Vec<u8>,
    total: Option<u64>,
    progress: &P,
) -> (n: u64)
    requires
        forall|n: u64|
            is_report(n as int, data.len() as int) ==> #[trigger] progress.takes(n, total),
    ensures
        n == data.len(),
        final(out)@ == old(out)@ + data@,
{
    let ghost start = out@;
    let mut at: usize = 0;
    assert(start + data@.take(0) =~= start);
    while at < data.len()
        invariant
            at <= data.len(),
            at % CHUNK == 0 || at == data.len(),
            out@ == start + data@.take(at as int),
            forall|n: u64|
                is_report(n as int, data.len() as int) ==> #[trigger] progress.takes(n, total),
        decreases data.len() - at,
    {
        let end = chunk_end(at, data.len());
        let mut piece = vstd::slice::slice_to_vec(vstd::slice::slice_subrange(data, at, end));
        out.append(&mut piece);
        assert(start + data@.take(at as int) + data@.subrange(at as int, end as int) =~= start
            + data@.take(end as int));
        at = end;
        progress.bytes(at as u64, total);
    }
    assert(data@.take(at as int) =~= data@);
    at as u64
}

/// A transfer of a stream: how much has gone through.
#[derive(Debug)]
pub struct Transfer {
    pub transferred: u64,
    pub total: Option<u64>,
}

impl Transfer {
    pub fn new(total: Option<u64>) -> (r: Self)
        ensures
            r.transferred == 0,
            r.total == total,
    {
        Transfer { transferred: 0, total }
    }

    /// Counts `n` bytes more; what is reported then.
    pub fn advance(&mut self, n: usize) -> (r: (u64, Option<u64>))
        requires
            old(self).transferred + n <= u64::MAX,
        ensures
            final(self).transferred == old(self).transferred + n,
            final(self).total == old(self).total,
            r == (final(self).transferred, final(self).total),
    {
        self.transferred = self.transferred + n as u64;
        (self.transferred, self.total)
    }
}

} // verus!
