use system_audio::chunker::{SampleChunker, CHUNK_SIZE};

#[test]
fn chunk_size_is_1024() {
    assert_eq!(CHUNK_SIZE, 1024);
}

#[test]
fn nothing_forwarded_before_a_chunk_is_full() {
    let mut c = SampleChunker::new();
    for i in 0..1023u32 {
        assert!(c.push(i).is_none());
    }
    let chunk = c.push(1023).expect("the 1024th sample fills a chunk");
    assert_eq!(chunk, (0..1024u32).collect::<Vec<_>>());
    assert!(c.finish().is_none());
}

#[test]
fn remainder_comes_out_at_the_end() {
    let mut c = SampleChunker::new();
    let mut out: Vec<Vec<u32>> = Vec::new();
    for i in 0..2500u32 {
        if let Some(chunk) = c.push(i) {
            out.push(chunk);
        }
    }
    if let Some(last) = c.finish() {
        out.push(last);
    }
    let sizes: Vec<usize> = out.iter().map(|v| v.len()).collect();
    assert_eq!(sizes, vec![1024, 1024, 452]);
    let all: Vec<u32> = out.into_iter().flatten().collect();
    assert_eq!(all, (0..2500u32).collect::<Vec<_>>());
}

#[test]
fn empty_stream_forwards_nothing() {
    let c: SampleChunker<f32> = SampleChunker::new();
    assert!(c.finish().is_none());
}

#[test]
fn float_samples_pass_through_unchanged() {
    let mut c = SampleChunker::new();
    c.push(0.25f32);
    c.push(-1.0f32);
    assert_eq!(c.finish(), Some(vec![0.25f32, -1.0f32]));
}

use system_audio::chunker::{ChunkForwarder, ForwardEvent, ForwardStep};

fn run(events: Vec<ForwardEvent<u32>>) -> (Vec<Vec<u32>>, Option<Option<Vec<u32>>>) {
    let mut sent = Vec::new();
    let mut f = ChunkForwarder::new();
    for e in events {
        match f.step(e) {
            ForwardStep::Continue(next) => f = next,
            ForwardStep::Send(next, chunk) => {
                sent.push(chunk);
                f = next;
            }
            ForwardStep::Finish(last) => return (sent, Some(last)),
        }
    }
    (sent, None)
}

#[test]
fn forwarder_sends_full_chunks_and_flushes_at_the_end() {
    let mut events: Vec<ForwardEvent<u32>> = (0..1100u32).map(ForwardEvent::Sample).collect();
    events.push(ForwardEvent::StreamEnded);
    let (sent, last) = run(events);
    assert_eq!(sent, vec![(0..1024u32).collect::<Vec<_>>()]);
    assert_eq!(last, Some(Some((1024..1100u32).collect::<Vec<_>>())));
}

#[test]
fn forwarder_stop_flushes_pending() {
    let (sent, last) = run(vec![ForwardEvent::Sample(7), ForwardEvent::Sample(8), ForwardEvent::StopRequested]);
    assert!(sent.is_empty());
    assert_eq!(last, Some(Some(vec![7, 8])));
}

#[test]
fn forwarder_stop_with_nothing_pending() {
    let (sent, last) = run(vec![ForwardEvent::StopRequested, ForwardEvent::Sample(1)]);
    assert!(sent.is_empty());
    assert_eq!(last, Some(None));
}

#[test]
fn forwarder_retries_a_failed_chunk_once_and_finishes() {
    let (_, last) = run(vec![ForwardEvent::Sample(1), ForwardEvent::SendFailed(vec![9, 9])]);
    assert_eq!(last, Some(Some(vec![9, 9, 1])));
}
