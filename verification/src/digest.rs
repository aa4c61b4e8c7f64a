//! The streaming digest engine.
//!
//! A digest is the SHA-512 hash of every byte that a source yields, in order.
//! The engine never holds more than one chunk of the source: the caller pulls
//! a chunk, hands it over, and stops at the first empty pull.

use crate::encoding::{decoded, encode, encoding_of, Encoding};
use crate::error::DecodeError;
use sodiumoxide::crypto::hash::sha512::State;
use vstd::prelude::*;
use vstd::slice::{slice_subrange, slice_to_vec};

verus! {

/// Number of bytes in a digest.
pub const DIGEST_LEN: usize = 64;

/// Number of bytes to pull from a source at a time.
pub const CHUNK_SIZE: usize = 8 * 1024;

/// sodiumoxide's state of a SHA-512 computation that takes its message in
/// several parts. The verifier sees nothing inside it.
#[verifier::external_type_specification]
#[verifier::external_body]
pub struct ExState(State);

/// The message that a hash state holds: the bytes that it has been fed
/// since it was made, in the order in which they were fed.
pub uninterp spec fn fed(state: State) -> Seq<u8>;

/// The SHA-512 hash of a message. Nothing is proved of it but that equal
/// messages have equal hashes.
pub uninterp spec fn sha512(message: Seq<u8>) -> Seq<u8>;

/// Calls `State::new` of sodiumoxide. Believed without proof: the new state
/// has been fed nothing.
#[verifier::external_body]
fn state_new() -> (state: State)
    ensures
        fed(state) == Seq::<u8>::empty(),
{
    State::new()
}

/// Calls `State::update` of sodiumoxide. Believed without proof: the state
/// then holds `chunk` behind all that it held before.
#[verifier::external_body]
fn state_update(state: &mut State, chunk: &[u8])
    ensures
        fed(*final(state)) == fed(*old(state)) + chunk@,
{
    state.update(chunk)
}

/// Calls `State::finalize` of sodiumoxide. Believed without proof: the
/// result is the SHA-512 hash, 64 bytes long, of the message that the state
/// holds, as if the message had been hashed in one piece.
#[verifier::external_body]
fn state_finalize(state: State) -> (hash: Vec<u8>)
    ensures
        hash@ == sha512(fed(state)),
        hash@.len() == DIGEST_LEN,
{
    state.finalize().as_ref().to_vec()
}

/// The digest of a byte sequence: always `DIGEST_LEN` bytes.
#[derive(Debug, PartialEq, Eq)]
pub struct Digest {
    bytes: Vec<u8>,
}

impl View for Digest {
    type V = Seq<u8>;

    closed spec fn view(&self) -> Seq<u8> {
        self.bytes@
    }
}

impl Clone for Digest {
    fn clone(&self) -> (copy: Digest)
        ensures
            copy@ == self@,
    {
        proof {
            use_type_invariant(self);
        }
        Digest { bytes: self.bytes.clone() }
    }
}

impl Digest {
    #[verifier::type_invariant]
    spec fn well_formed(self) -> bool {
        self.bytes@.len() == DIGEST_LEN
    }

    /// The digest that consists of `bytes`, if they are `DIGEST_LEN` many.
    pub fn from_bytes(bytes: &[u8]) -> (digest: Option<Digest>)
        ensures
            digest is Some <==> bytes@.len() == DIGEST_LEN,
            digest matches Some(d) ==> d@ == bytes@,
    {
        if bytes.len() == DIGEST_LEN {
            Some(Digest { bytes: slice_to_vec(bytes) })
        } else {
            None
        }
    }

    /// The bytes of the digest.
    pub fn as_bytes(&self) -> (bytes: &[u8])
        ensures
            bytes@ == self@,
            bytes@.len() == DIGEST_LEN,
    {
        proof {
            use_type_invariant(self);
        }
        self.bytes.as_slice()
    }

    /// The digest as text: in Base58 where `short` is set, else in
    /// hexadecimal. Either text decodes to the bytes of the digest.
    pub fn render(&self, short: bool) -> (text: String)
        ensures
            text@ == encoding_of(self@, rendering(short)),
            decoded(text@, rendering(short)) == Ok::<Seq<u8>, DecodeError>(self@),
    {
        if short {
            encode(self.bytes.as_slice(), Encoding::Base58)
        } else {
            encode(self.bytes.as_slice(), Encoding::Hex)
        }
    }
}

/// The encoding in which a digest is shown.
pub open spec fn rendering(short: bool) -> Encoding {
    if short {
        Encoding::Base58
    } else {
        Encoding::Hex
    }
}

/// The accumulator of one digest computation.
pub struct DigestEngine {
    state: State,
}

/// What is to be done after a pull from the source.
pub enum Step<E> {
    /// Pull again, and hand the outcome to this engine.
    Pull(DigestEngine),
    /// The source is at its end, and this is its digest.
    Done(Digest),
    /// The pull failed for this reason: there is no digest.
    Failed(E),
}

impl DigestEngine {
    /// Every byte absorbed so far, in order.
    pub closed spec fn absorbed(&self) -> Seq<u8> {
        fed(self.state)
    }

    /// An engine that has absorbed nothing.
    pub fn new() -> (engine: DigestEngine)
        ensures
            engine.absorbed() == Seq::<u8>::empty(),
    {
        DigestEngine { state: state_new() }
    }

    /// Takes what one pull from the source left in `buffer`.
    ///
    /// A chunk that holds bytes is absorbed and the buffer is emptied for the
    /// next pull; the result is `true`: pull again. An empty buffer is the
    /// end of the source; the result is `false`.
    pub fn absorb(&mut self, buffer: &mut Vec<u8>) -> (more: bool)
        ensures
            more == (old(buffer)@.len() > 0),
            final(self).absorbed() == old(self).absorbed() + old(buffer)@,
            final(buffer)@.len() == 0,
    {
        if buffer.len() == 0 {
            return false;
        }
        state_update(&mut self.state, buffer.as_slice());
        buffer.clear();
        true
    }

    /// Takes the outcome of one pull from the source: what the pull left in
    /// `buffer`, or why it failed.
    ///
    /// A pull that failed ends the computation with its error. A pull that
    /// read nothing ends it with the digest. Any other pull is absorbed, and
    /// the buffer is emptied for the next one. The count that a successful
    /// pull reports is not looked at: the buffer holds what was read.
    pub fn step<E>(self, pulled: Result<usize, E>, buffer: &mut Vec<u8>) -> (next: Step<E>)
        ensures
            match pulled {
                Err(error) => next == Step::<E>::Failed(error) && final(buffer)@ == old(buffer)@,
                Ok(_) => final(buffer)@.len() == 0 && if old(buffer)@.len() == 0 {
                    next matches Step::Done(digest) && digest@ == sha512(self.absorbed())
                        && digest@.len() == DIGEST_LEN
                } else {
                    next matches Step::Pull(engine) && engine.absorbed() == self.absorbed()
                        + old(buffer)@
                },
            },
    {
        match pulled {
            Err(error) => Step::Failed(error),
            Ok(_) => {
                let mut engine = self;
                if engine.absorb(buffer) {
                    Step::Pull(engine)
                } else {
                    Step::Done(engine.finish())
                }
            },
        }
    }

    /// Ends the computation: the digest of all that was absorbed.
    pub fn finish(self) -> (digest: Digest)
        ensures
            digest@ == sha512(self.absorbed()),
            digest@.len() == DIGEST_LEN,
    {
        Digest { bytes: state_finalize(self.state) }
    }
}

/// The bytes that reach the engine from a source whose successive pulls
/// return `pulls`: every chunk before the first empty one, in order. An
/// empty pull is the end of the source, whatever a later pull would return.
pub open spec fn streamed(pulls: Seq<Seq<u8>>) -> Seq<u8>
    decreases pulls.len(),
{
    if pulls.len() == 0 || pulls[0].len() == 0 {
        Seq::empty()
    } else {
        pulls[0] + streamed(pulls.drop_first())
    }
}

/// `pulls` cut `data` into chunks, none of them empty.
pub open spec fn is_chunking(pulls: Seq<Seq<u8>>, data: Seq<u8>) -> bool {
    &&& pulls.flatten() == data
    &&& forall|i: int| 0 <= i < pulls.len() ==> (#[trigger] pulls[i]).len() > 0
}

/// Where no pull is empty, every chunk reaches the engine: nothing is lost
/// and nothing comes twice at the boundary between two chunks.
pub proof fn lemma_streamed_chunking(pulls: Seq<Seq<u8>>, data: Seq<u8>)
    requires
        is_chunking(pulls, data),
    ensures
        streamed(pulls) == data,
    decreases pulls.len(),
{
    if pulls.len() > 0 {
        let rest = pulls.drop_first();
        assert forall|i: int| 0 <= i < rest.len() implies (#[trigger] rest[i]).len() > 0 by {
            assert(rest[i] == pulls[i + 1]);
        }
        lemma_streamed_chunking(rest, rest.flatten());
    }
}

/// The first empty pull ends the stream, whatever later pulls would return.
pub proof fn lemma_streamed_ends_at_empty_pull(
    pulls: Seq<Seq<u8>>,
    data: Seq<u8>,
    later: Seq<Seq<u8>>,
)
    requires
        is_chunking(pulls, data),
    ensures
        streamed(pulls + seq![Seq::<u8>::empty()] + later) == data,
    decreases pulls.len(),
{
    let all = pulls + seq![Seq::<u8>::empty()] + later;
    if pulls.len() == 0 {
        assert(all[0] == Seq::<u8>::empty());
    } else {
        let rest = pulls.drop_first();
        assert forall|i: int| 0 <= i < rest.len() implies (#[trigger] rest[i]).len() > 0 by {
            assert(rest[i] == pulls[i + 1]);
        }
        lemma_streamed_ends_at_empty_pull(rest, rest.flatten(), later);
        assert(all[0] == pulls[0]);
        assert(all.drop_first() == rest + seq![Seq::<u8>::empty()] + later);
    }
}

/// The digest of a stream does not depend on where the stream is cut into
/// chunks: two ways of cutting the same bytes give the same digest, that of
/// the bytes.
pub proof fn lemma_digest_ignores_chunking(
    data: Seq<u8>,
    first: Seq<Seq<u8>>,
    second: Seq<Seq<u8>>,
)
    requires
        is_chunking(first, data),
        is_chunking(second, data),
    ensures
        sha512(streamed(first)) == sha512(streamed(second)),
        sha512(streamed(first)) == sha512(data),
{
    lemma_streamed_chunking(first, data);
    lemma_streamed_chunking(second, data);
}

/// The chunks as byte sequences.
pub open spec fn chunk_views(chunks: Seq<Vec<u8>>) -> Seq<Seq<u8>> {
    Seq::new(chunks.len(), |i: int| chunks[i]@)
}

/// The digest of a source whose successive pulls return `pulls`.
pub fn digest_chunks(pulls: &[Vec<u8>]) -> (digest: Digest)
    ensures
        digest@ == sha512(streamed(chunk_views(pulls@))),
        digest@.len() == DIGEST_LEN,
{
    let ghost all = chunk_views(pulls@);
    let mut engine = DigestEngine::new();
    let mut buffer: Vec<u8> = Vec::new();
    let mut next: usize = 0;
    assert(all.skip(0) == all);
    while next < pulls.len()
        invariant_except_break
            next <= pulls.len(),
            all == chunk_views(pulls@),
            buffer@.len() == 0,
            streamed(all) == engine.absorbed() + streamed(all.skip(next as int)),
        ensures
            engine.absorbed() == streamed(all),
        decreases pulls.len() - next,
    {
        let ghost rest = all.skip(next as int);
        assert(rest[0] == pulls@[next as int]@);
        assert(rest.drop_first() == all.skip(next + 1));
        buffer.extend_from_slice(pulls[next].as_slice());
        next = next + 1;
        if !engine.absorb(&mut buffer) {
            break;
        }
    }
    engine.finish()
}

/// The digest of `data`, streamed to the engine `chunk_size` bytes at a
/// time. Every chunk size gives the same digest.
pub fn digest_bytes(data: &[u8], chunk_size: usize) -> (digest: Digest)
    requires
        chunk_size > 0,
    ensures
        digest@ == sha512(data@),
        digest@.len() == DIGEST_LEN,
{
    let mut engine = DigestEngine::new();
    let mut buffer: Vec<u8> = Vec::new();
    let mut taken: usize = 0;
    loop
        invariant_except_break
            taken <= data.len(),
            chunk_size > 0,
            buffer@.len() == 0,
            engine.absorbed() == data@.subrange(0, taken as int),
        ensures
            engine.absorbed() == data@,
        decreases data.len() - taken,
    {
        let end: usize = if data.len() - taken < chunk_size {
            data.len()
        } else {
            taken + chunk_size
        };
        buffer.extend_from_slice(slice_subrange(data, taken, end));
        assert(data@.subrange(0, taken as int) + data@.subrange(taken as int, end as int)
            == data@.subrange(0, end as int));
        taken = end;
        if !engine.absorb(&mut buffer) {
            assert(data@.subrange(0, taken as int) == data@);
            break;
        }
    }
    engine.finish()
}

} // verus!
