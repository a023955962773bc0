//! Grouping a stream of samples into chunks of a fixed size before they are
//! forwarded, as the system capture stream does.
use vstd::prelude::*;

verus! {

/// How many samples go into one forwarded chunk.
pub const CHUNK_SIZE: usize = 1024;

/// What pushing `sample` onto the samples `pending` gives: the chunk forwarded,
/// if the chunk is full now, and the samples left pending.
pub open spec fn push_step<T>(pending: Seq<T>, sample: T) -> (Option<Seq<T>>, Seq<T>) {
    let buffered = pending.push(sample);
    if buffered.len() >= CHUNK_SIZE {
        (Some(buffered), Seq::empty())
    } else {
        (None, buffered)
    }
}

/// What the end of the stream gives for the samples `pending`: a last, shorter
/// chunk, where any sample is pending.
pub open spec fn finish_step<T>(pending: Seq<T>) -> Option<Seq<T>> {
    if pending.len() > 0 {
        Some(pending)
    } else {
        None
    }
}

/// The chunks forwarded while `samples` are pushed, in turn, onto `pending`, and
/// the samples left pending after them.
pub open spec fn push_all<T>(pending: Seq<T>, samples: Seq<T>) -> (Seq<Seq<T>>, Seq<T>)
    decreases samples.len(),
{
    if samples.len() == 0 {
        (Seq::empty(), pending)
    } else {
        let (before, rest) = push_all(pending, samples.drop_last());
        let (chunk, after) = push_step(rest, samples.last());
        match chunk {
            Some(c) => (before.push(c), after),
            None => (before, after),
        }
    }
}

/// The chunks one after the other.
pub open spec fn concat<T>(chunks: Seq<Seq<T>>) -> Seq<T>
    decreases chunks.len(),
{
    if chunks.len() == 0 {
        Seq::empty()
    } else {
        concat(chunks.drop_last()) + chunks.last()
    }
}

/// Pushing samples loses, adds and reorders nothing: the chunks forwarded, one
/// after the other, followed by what is left pending, are the samples pending
/// before followed by those pushed; every chunk forwarded holds exactly
/// `CHUNK_SIZE` samples, and fewer than that are left pending.
pub proof fn lemma_chunks_keep_every_sample<T>(pending: Seq<T>, samples: Seq<T>)
    requires
        pending.len() < CHUNK_SIZE,
    ensures
        concat(push_all(pending, samples).0) + push_all(pending, samples).1 == pending + samples,
        forall|i: int|
            0 <= i < push_all(pending, samples).0.len() ==> (#[trigger] push_all(
                pending,
                samples,
            ).0[i]).len() == CHUNK_SIZE,
        push_all(pending, samples).1.len() < CHUNK_SIZE,
    decreases samples.len(),
{
    if samples.len() > 0 {
        let init = samples.drop_last();
        let x = samples.last();
        lemma_chunks_keep_every_sample(pending, init);
        let (before, rest) = push_all(pending, init);
        let buffered = rest.push(x);
        assert(samples =~= init.push(x));
        assert(concat(before) + rest == pending + init);
        assert(concat(before) + buffered =~= (concat(before) + rest).push(x));
        assert((pending + init).push(x) =~= pending + samples);
        if buffered.len() >= CHUNK_SIZE {
            let chunks = before.push(buffered);
            assert(chunks.drop_last() =~= before);
            assert(concat(chunks) == concat(before) + buffered);
            assert(concat(chunks) + Seq::<T>::empty() =~= pending + samples);
        } else {
            assert(concat(before) + buffered =~= pending + samples);
        }
    }
}

/// With the end of the stream, every sample comes out: the chunks forwarded
/// while `samples` were pushed onto an empty chunker, then the last chunk that
/// the end gives, are `samples`; that last chunk is never empty.
pub proof fn lemma_stream_round_trip<T>(samples: Seq<T>)
    ensures
        ({
            let (chunks, rest) = push_all(Seq::<T>::empty(), samples);
            let all = match finish_step(rest) {
                Some(last) => chunks.push(last),
                None => chunks,
            };
            &&& concat(all) == samples
            &&& forall|i: int| 0 <= i < all.len() ==> (#[trigger] all[i]).len() > 0
        }),
{
    lemma_chunks_keep_every_sample(Seq::<T>::empty(), samples);
    let (chunks, rest) = push_all(Seq::<T>::empty(), samples);
    assert(Seq::<T>::empty() + samples =~= samples);
    match finish_step(rest) {
        Some(last) => {
            let all = chunks.push(last);
            assert(all.drop_last() =~= chunks);
            assert forall|i: int| 0 <= i < all.len() implies (#[trigger] all[i]).len() > 0 by {
                if i < chunks.len() {
                    assert(all[i] == chunks[i]);
                }
            }
        },
        None => {
            assert(rest.len() == 0);
            assert(concat(chunks) + rest =~= concat(chunks));
            assert forall|i: int| 0 <= i < chunks.len() implies (#[trigger] chunks[i]).len() > 0 by {
                assert(chunks[i].len() == CHUNK_SIZE);
            }
        },
    }
}

/// Samples waiting to be forwarded as a chunk.
pub struct SampleChunker<T> {
    buffer: Vec<T>,
}

impl<T> SampleChunker<T> {
    #[verifier::type_invariant]
    spec fn short(self) -> bool {
        self.buffer.len() < CHUNK_SIZE
    }

    /// The samples pushed and not yet forwarded, in order.
    pub closed spec fn pending(self) -> Seq<T> {
        self.buffer@
    }

    /// A chunker with nothing pending.
    pub fn new() -> (res: Self)
        ensures
            res.pending() == Seq::<T>::empty(),
    {
        SampleChunker { buffer: Vec::new() }
    }

    /// Adds `sample`; gives back the chunk to forward where it fills one.
    pub fn push(&mut self, sample: T) -> (res: Option<Vec<T>>)
        ensures
            (match res {
                Some(c) => Some(c@),
                None => None,
            }, final(self).pending()) == push_step(old(self).pending(), sample),
            final(self).pending().len() < CHUNK_SIZE,
    {
        proof {
            use_type_invariant(&*self);
        }
        let mut buffer: Vec<T> = Vec::new();
        std::mem::swap(&mut buffer, &mut self.buffer);
        buffer.push(sample);
        if buffer.len() >= CHUNK_SIZE {
            Some(buffer)
        } else {
            self.buffer = buffer;
            None
        }
    }

    /// Ends the stream; gives back the last chunk where any sample is pending.
    pub fn finish(self) -> (res: Option<Vec<T>>)
        ensures
            (match res {
                Some(c) => Some(c@),
                None => None,
            }) == finish_step(self.pending()),
    {
        let SampleChunker { buffer } = self;
        if buffer.len() > 0 {
            Some(buffer)
        } else {
            None
        }
    }
}

/// What happens next to a stream being forwarded in chunks.
pub enum ForwardEvent<T> {
    /// The consumer asked the forwarding to stop.
    StopRequested,
    /// The source produced a sample.
    Sample(T),
    /// The source has no more samples.
    StreamEnded,
    /// Handing out a chunk failed; the chunk comes back.
    SendFailed(Vec<T>),
}

/// What the forwarding does next.
pub enum ForwardStep<T> {
    /// Wait for the next event.
    Continue(ChunkForwarder<T>),
    /// Hand out this chunk, then wait for the next event.
    Send(ChunkForwarder<T>, Vec<T>),
    /// Stop; hand out this last chunk first, if there is one.
    Finish(Option<Vec<T>>),
}

/// Forwarding a stream of samples in chunks: the decisions of the forwarding
/// loop, from its state and an event to its next state and action.
pub struct ChunkForwarder<T> {
    chunker: SampleChunker<T>,
}

/// An optional chunk as an optional sequence.
pub open spec fn chunk_view<T>(c: Option<Vec<T>>) -> Option<Seq<T>> {
    match c {
        Some(v) => Some(v@),
        None => None,
    }
}

impl<T> ChunkForwarder<T> {
    /// The samples taken in and not yet handed out, in order.
    pub closed spec fn pending(self) -> Seq<T> {
        self.chunker.pending()
    }

    /// A forwarder with nothing pending.
    pub fn new() -> (res: Self)
        ensures
            res.pending() == Seq::<T>::empty(),
    {
        ChunkForwarder { chunker: SampleChunker::new() }
    }

    /// The next state and action after `event`. A sample is pushed and a full
    /// chunk handed out; a stop request and the end of the stream hand out what
    /// is pending and finish; a failed hand-out finishes with one more try at the
    /// chunk that failed, together with what is pending.
    pub fn step(self, event: ForwardEvent<T>) -> (res: ForwardStep<T>)
        ensures
            match event {
                ForwardEvent::Sample(x) => {
                    let (chunk, rest) = push_step(self.pending(), x);
                    match res {
                        ForwardStep::Continue(f) => chunk is None && f.pending() == rest,
                        ForwardStep::Send(f, c) => chunk == Some(c@) && f.pending() == rest,
                        ForwardStep::Finish(_) => false,
                    }
                },
                ForwardEvent::StopRequested | ForwardEvent::StreamEnded => res matches ForwardStep::Finish(
                    last,
                ) && chunk_view(last) == finish_step(self.pending()),
                ForwardEvent::SendFailed(failed) => res matches ForwardStep::Finish(last)
                    && chunk_view(last) == finish_step(failed@ + self.pending()),
            },
    {
        let ChunkForwarder { mut chunker } = self;
        match event {
            ForwardEvent::Sample(x) => match chunker.push(x) {
                Some(chunk) => ForwardStep::Send(ChunkForwarder { chunker }, chunk),
                None => ForwardStep::Continue(ChunkForwarder { chunker }),
            },
            ForwardEvent::StopRequested => ForwardStep::Finish(chunker.finish()),
            ForwardEvent::StreamEnded => ForwardStep::Finish(chunker.finish()),
            ForwardEvent::SendFailed(failed) => {
                let mut all = failed;
                match chunker.finish() {
                    Some(mut rest) => {
                        let ghost before = all@;
                        all.append(&mut rest);
                        assert(all@ =~= before + chunker.pending());
                    },
                    None => {
                        assert(all@ =~= all@ + chunker.pending());
                    },
                }
                if all.len() > 0 {
                    ForwardStep::Finish(Some(all))
                } else {
                    ForwardStep::Finish(None)
                }
            },
        }
    }
}

} // verus!
