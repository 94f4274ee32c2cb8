use vstd::prelude::*;
use vstd::string::StringSliceAdditionalSpecFns;
use crate::token::{hex_token, hex_token_of};

verus! {

/// Whether the received byte `r` meets one slot of an expect pattern.
pub open spec fn slot_matches(slot: Option<u8>, r: u8) -> bool {
    match slot {
        Some(e) => e == r,
        None => true,
    }
}

/// Whether `recv` meets every slot of `pat`.
pub open spec fn pattern_matches(pat: Seq<Option<u8>>, recv: Seq<u8>) -> bool {
    &&& pat.len() == recv.len()
    &&& forall|i: int| 0 <= i < pat.len() ==> #[trigger] slot_matches(pat[i], recv[i])
}

/// A slot of an expect pattern that the peer's byte did not meet.
#[derive(Clone, Copy, Debug, PartialEq, Eq, Structural)]
pub struct Mismatch {
    pub index: usize,
    pub read: u8,
    pub expected: u8,
}

/// The slots of `pat` that `recv` does not meet, in order.
pub open spec fn mismatches_of(pat: Seq<Option<u8>>, recv: Seq<u8>) -> Seq<Mismatch>
    decreases pat.len(),
{
    if pat.len() == 0 || recv.len() < pat.len() {
        Seq::empty()
    } else {
        let i = pat.len() - 1;
        let rest = mismatches_of(pat.drop_last(), recv.subrange(0, i));
        match pat.last() {
            Some(e) => if e == recv[i] {
                rest
            } else {
                rest.push(Mismatch { index: i as usize, read: recv[i], expected: e })
            },
            None => rest,
        }
    }
}

/// The slots of `pattern` that `received` does not meet, in order.
pub fn mismatches(pattern: &[Option<u8>], received: &[u8]) -> (r: Vec<Mismatch>)
    requires
        pattern@.len() == received@.len(),
    ensures
        r@ == mismatches_of(pattern@, received@),
{
    let mut r: Vec<Mismatch> = Vec::new();
    let mut i: usize = 0;
    while i < pattern.len()
        invariant
            pattern@.len() == received@.len(),
            0 <= i <= pattern@.len(),
            r@ == mismatches_of(pattern@.subrange(0, i as int), received@.subrange(0, i as int)),
        decreases pattern@.len() - i,
    {
        let ghost p1 = pattern@.subrange(0, i + 1);
        let ghost r1 = received@.subrange(0, i + 1);
        assert(p1.drop_last() =~= pattern@.subrange(0, i as int));
        assert(r1.subrange(0, i as int) =~= received@.subrange(0, i as int));
        if let Some(e) = pattern[i] {
            if e != received[i] {
                r.push(Mismatch { index: i, read: received[i], expected: e });
            }
        }
        i = i + 1;
    }
    assert(pattern@.subrange(0, i as int) =~= pattern@);
    assert(received@.subrange(0, i as int) =~= received@);
    r
}

/// No slot is reported exactly when the received bytes meet the pattern.
pub proof fn lemma_no_mismatch_iff_match(pat: Seq<Option<u8>>, recv: Seq<u8>)
    requires
        pat.len() == recv.len(),
    ensures
        mismatches_of(pat, recv).len() == 0 <==> pattern_matches(pat, recv),
        pattern_matches(pat, recv) <==> forall|i: int|
            0 <= i < pat.len() ==> pat[i] is None || pat[i] == Some(recv[i]),
    decreases pat.len(),
{
    if pat.len() > 0 {
        let i = pat.len() - 1;
        let p0 = pat.drop_last();
        let r0 = recv.subrange(0, i);
        lemma_no_mismatch_iff_match(p0, r0);
        if pattern_matches(p0, r0) && slot_matches(pat[i], recv[i]) {
            assert forall|j: int| 0 <= j < pat.len() implies #[trigger] slot_matches(
                pat[j],
                recv[j],
            ) by {
                if j < i {
                    assert(slot_matches(p0[j], r0[j]));
                }
            }
        }
        if pattern_matches(pat, recv) {
            assert forall|j: int| 0 <= j < p0.len() implies #[trigger] slot_matches(
                p0[j],
                r0[j],
            ) by {
                assert(slot_matches(pat[j], recv[j]));
            }
            assert(slot_matches(pat[i], recv[i]));
        }
    }
    assert(pattern_matches(pat, recv) ==> forall|i: int|
        0 <= i < pat.len() ==> pat[i] is None || pat[i] == Some(recv[i])) by {
        if pattern_matches(pat, recv) {
            assert forall|i: int| 0 <= i < pat.len() implies pat[i] is None || pat[i] == Some(
                recv[i],
            ) by {
                assert(slot_matches(pat[i], recv[i]));
            }
        }
    }
    assert((forall|i: int| 0 <= i < pat.len() ==> pat[i] is None || pat[i] == Some(recv[i]))
        ==> pattern_matches(pat, recv)) by {
        if forall|i: int| 0 <= i < pat.len() ==> pat[i] is None || pat[i] == Some(recv[i]) {
            assert forall|i: int| 0 <= i < pat.len() implies #[trigger] slot_matches(
                pat[i],
                recv[i],
            ) by {
                assert(pat[i] is None || pat[i] == Some(recv[i]));
            }
        }
    }
}

/// The pass flag of one script: it holds until a response misses its pattern.
pub struct Session {
    passed: bool,
}

impl View for Session {
    type V = bool;

    closed spec fn view(&self) -> bool {
        self.passed
    }
}

impl Session {
    /// A script that has not yet failed: one with no directives passes.
    pub fn new() -> (s: Session)
        ensures
            s@,
    {
        Session { passed: true }
    }

    /// Whether every response so far met its pattern.
    pub fn passed(&self) -> (r: bool)
        ensures
            r == self@,
    {
        self.passed
    }

    /// Compares a full response with its pattern and records the outcome: the
    /// script still passes exactly when it did and every slot is met. Returns
    /// the slots that were not met, in order; the run goes on either way.
    pub fn check_response(&mut self, pattern: &[Option<u8>], received: &[u8]) -> (r: Vec<
        Mismatch,
    >)
        requires
            pattern@.len() == received@.len(),
        ensures
            r@ == mismatches_of(pattern@, received@),
            final(self)@ == (old(self)@ && pattern_matches(pattern@, received@)),
    {
        let r = mismatches(pattern, received);
        proof {
            lemma_no_mismatch_iff_match(pattern@, received@);
        }
        if r.len() > 0 {
            self.passed = false;
        }
        r
    }
}

/// The transcript line that reports a mismatch: `FAIL: read 0xHH, expected 0xHH`.
pub open spec fn fail_line_of(m: Mismatch) -> Seq<u8> {
    "FAIL: read ".spec_bytes() + hex_token_of(m.read) + ", expected ".spec_bytes()
        + hex_token_of(m.expected)
}

/// The transcript line that reports mismatch `m`.
pub fn fail_line(m: &Mismatch) -> (r: Vec<u8>)
    ensures
        r@ == fail_line_of(*m),
{
    let mut r = vstd::slice::slice_to_vec("FAIL: read ".as_bytes());
    let mut read = hex_token(m.read);
    r.append(&mut read);
    let mut middle = vstd::slice::slice_to_vec(", expected ".as_bytes());
    r.append(&mut middle);
    let mut expected = hex_token(m.expected);
    r.append(&mut expected);
    r
}

/// Byte `b` in decimal, without leading zeros.
pub open spec fn decimal_of(b: u8) -> Seq<u8> {
    if b >= 100 {
        seq![('0' as u8 + b / 100) as u8, ('0' as u8 + (b / 10) % 10) as u8, ('0' as u8 + b % 10) as u8]
    } else if b >= 10 {
        seq![('0' as u8 + b / 10) as u8, ('0' as u8 + b % 10) as u8]
    } else {
        seq![('0' as u8 + b) as u8]
    }
}

/// The bytes in decimal, separated by `, `.
pub open spec fn decimal_list(bytes: Seq<u8>) -> Seq<u8>
    decreases bytes.len(),
{
    if bytes.len() == 0 {
        Seq::empty()
    } else if bytes.len() == 1 {
        decimal_of(bytes[0])
    } else {
        decimal_list(bytes.drop_last()) + seq![',' as u8, ' ' as u8] + decimal_of(bytes.last())
    }
}

/// The transcript line of a transfer: `< [b0, b1, ...]` for bytes sent,
/// `> [r0, r1, ...]` for bytes received.
pub open spec fn transcript_line_of(sent: bool, bytes: Seq<u8>) -> Seq<u8> {
    let marker = if sent {
        '<' as u8
    } else {
        '>' as u8
    };
    seq![marker, ' ' as u8, '[' as u8] + decimal_list(bytes) + seq![']' as u8]
}

fn decimal(b: u8) -> (r: Vec<u8>)
    ensures
        r@ == decimal_of(b),
{
    let r = if b >= 100 {
        vec!['0' as u8 + b / 100, '0' as u8 + (b / 10) % 10, '0' as u8 + b % 10]
    } else if b >= 10 {
        vec!['0' as u8 + b / 10, '0' as u8 + b % 10]
    } else {
        vec!['0' as u8 + b]
    };
    assert(r@ =~= decimal_of(b));
    r
}

/// The transcript line of bytes sent (`sent`) or received.
pub fn transcript_line(sent: bool, bytes: &[u8]) -> (r: Vec<u8>)
    ensures
        r@ == transcript_line_of(sent, bytes@),
{
    let marker = if sent {
        '<' as u8
    } else {
        '>' as u8
    };
    let mut r: Vec<u8> = vec![marker, ' ' as u8, '[' as u8];
    let ghost head = r@;
    let mut i: usize = 0;
    while i < bytes.len()
        invariant
            0 <= i <= bytes@.len(),
            head == seq![marker, ' ' as u8, '[' as u8],
            r@ == head + decimal_list(bytes@.subrange(0, i as int)),
        decreases bytes@.len() - i,
    {
        let ghost before = r@;
        let ghost prefix = bytes@.subrange(0, i + 1);
        assert(prefix.drop_last() =~= bytes@.subrange(0, i as int));
        if i > 0 {
            r.push(',' as u8);
            r.push(' ' as u8);
        }
        let mut d = decimal(bytes[i]);
        r.append(&mut d);
        proof {
            if i == 0 {
                assert(bytes@.subrange(0, 0) =~= Seq::<u8>::empty());
                assert(r@ =~= head + decimal_list(prefix));
            } else {
                assert(r@ =~= before + seq![',' as u8, ' ' as u8] + decimal_of(bytes@[i as int]));
                assert(r@ =~= head + decimal_list(prefix));
            }
        }
        i = i + 1;
    }
    r.push(']' as u8);
    assert(bytes@.subrange(0, bytes@.len() as int) =~= bytes@);
    assert(r@ =~= transcript_line_of(sent, bytes@));
    r
}

/// What one read from the peer gave.
#[derive(Clone, Copy, Debug, PartialEq, Eq, Structural)]
pub enum ReadEvent {
    /// The read placed this many bytes (zero: the peer closed the stream).
    Data(usize),
    /// The read was interrupted before any byte arrived.
    Interrupted,
    /// The read failed otherwise.
    Failed,
}

/// What to do after a read.
#[derive(Clone, Copy, Debug, PartialEq, Eq, Structural)]
pub enum ReadStep {
    /// Read again into what is left of the buffer.
    Continue,
    /// The buffer is full.
    Complete,
    /// The peer closed the stream before the buffer was full.
    Truncated,
    /// The read failed: hand its error on unchanged.
    Failed,
}

/// A read that fills a buffer of known length, across as many reads as the
/// peer needs; `filled` never exceeds `wanted`.
pub struct FullRead {
    wanted: usize,
    filled: usize,
}

impl FullRead {
    pub closed spec fn wanted_spec(&self) -> nat {
        self.wanted as nat
    }

    pub closed spec fn filled_spec(&self) -> nat {
        self.filled as nat
    }

    /// A read of `wanted` bytes with none placed yet.
    pub fn new(wanted: usize) -> (r: FullRead)
        ensures
            r.wanted_spec() == wanted,
            r.filled_spec() == 0,
    {
        FullRead { wanted, filled: 0 }
    }

    pub fn wanted(&self) -> (r: usize)
        ensures
            r == self.wanted_spec(),
    {
        self.wanted
    }

    /// Where the next read places its bytes.
    pub fn filled(&self) -> (r: usize)
        ensures
            r == self.filled_spec(),
    {
        self.filled
    }

    /// Whether the buffer is full.
    pub fn is_complete(&self) -> (r: bool)
        ensures
            r == (self.filled_spec() == self.wanted_spec()),
    {
        self.filled == self.wanted
    }

    /// Takes the outcome of one read into `buffer[filled..wanted]`, which
    /// places at most that many bytes. Bytes advance the fill, and complete it
    /// when none are left to read; an interruption is retried; zero bytes
    /// before the end is a truncation; any other failure ends the read.
    pub fn on_read(&mut self, ev: ReadEvent) -> (r: ReadStep)
        requires
            old(self).filled_spec() < old(self).wanted_spec(),
            ev matches ReadEvent::Data(n) ==> n <= old(self).wanted_spec() - old(
                self,
            ).filled_spec(),
        ensures
            final(self).wanted_spec() == old(self).wanted_spec(),
            final(self).filled_spec() <= final(self).wanted_spec(),
            match ev {
                ReadEvent::Data(n) => if n == 0 {
                    r == ReadStep::Truncated && final(self).filled_spec() == old(self).filled_spec()
                } else {
                    final(self).filled_spec() == old(self).filled_spec() + n && (r
                        == ReadStep::Complete <==> final(self).filled_spec()
                        == final(self).wanted_spec()) && (r == ReadStep::Complete || r
                        == ReadStep::Continue)
                },
                ReadEvent::Interrupted => r == ReadStep::Continue && final(self).filled_spec()
                    == old(self).filled_spec(),
                ReadEvent::Failed => r == ReadStep::Failed && final(self).filled_spec() == old(
                    self,
                ).filled_spec(),
            },
    {
        match ev {
            ReadEvent::Data(n) => {
                if n == 0 {
                    ReadStep::Truncated
                } else {
                    self.filled = self.filled + n;
                    if self.filled == self.wanted {
                        ReadStep::Complete
                    } else {
                        ReadStep::Continue
                    }
                }
            },
            ReadEvent::Interrupted => ReadStep::Continue,
            ReadEvent::Failed => ReadStep::Failed,
        }
    }
}

} // verus!
